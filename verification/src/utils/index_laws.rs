//! What holds of every index that was built from a weight map.

use crate::utils::index_files;
use crate::utils::index_files::{
    deserialize_pair, deserialize_shape, group_by_file, header_fits, largest_size, weight_files,
    FileHeader, HeaderEntry,
};
use crate::utils::order;
use crate::utils::path;
use crate::utils::path_laws;
use crate::utils::tensor_index;
use crate::utils::tensor_index::{Dist, FileTensors, TensorIndex, TensorMeta, TensorShape};
use crate::utils::text;
use crate::utils::text_laws;
use crate::utils::text_laws::in_dictionary_order;
use candle_core::Tensor;
use vstd::prelude::*;
use vstd::relations::{sorted_by, total_ordering};
use vstd::seq_lib::*;

verus! {

/// A position that occurs nowhere is missing.
proof fn lemma_all_positions(p: Seq<usize>, n: nat)
    requires
        order::permutes(p, n),
        n > 0,
    ensures
        exists|j: int| 0 <= j < n && #[trigger] p[j] == n - 1,
{
    if forall|j: int| 0 <= j < n ==> #[trigger] p[j] != n - 1 {
        let q = p.map_values(|i: usize| i as int);
        assert(q.no_duplicates()) by {
            assert forall|i: int, j: int| 0 <= i < j < q.len() implies q[i] != q[j] by {
                assert(p[i] != p[j]);
            }
        }
        q.unique_seq_to_set();
        let range = vstd::set_lib::set_int_range(0, n - 1);
        vstd::set_lib::lemma_int_range(0, n - 1);
        assert(q.to_set().subset_of(range)) by {
            assert forall|x: int| q.to_set().contains(x) implies range.contains(x) by {
                let j = choose|j: int| 0 <= j < q.len() && q[j] == x;
                assert(p[j] < n && p[j] != n - 1);
            }
        }
        vstd::set_lib::lemma_len_subset(q.to_set(), range);
        assert(false);
    }
}

/// Going through a list in another order finds the same items.
proof fn lemma_permuted<A>(s: Seq<A>, p: Seq<usize>)
    requires
        order::permutes(p, s.len()),
    ensures
        p.map_values(|i: usize| s[i as int]).to_multiset() == s.to_multiset(),
    decreases s.len(),
{
    let picked = p.map_values(|i: usize| s[i as int]);
    if s.len() == 0 {
        assert(picked =~= s);
    } else {
        let n = s.len();
        lemma_all_positions(p, n);
        let j = choose|j: int| 0 <= j < n && #[trigger] p[j] == n - 1;
        let rest = p.remove(j);
        let small = s.drop_last();
        assert(order::permutes(rest, small.len())) by {
            assert forall|a: int, b: int| 0 <= a < b < rest.len() implies rest[a] != rest[b] by {
                let a0 = if a < j {
                    a
                } else {
                    a + 1
                };
                let b0 = if b < j {
                    b
                } else {
                    b + 1
                };
                assert(rest[a] == p[a0] && rest[b] == p[b0]);
            }
            assert forall|a: int| 0 <= a < rest.len() implies #[trigger] rest[a] < small.len() by {
                let a0 = if a < j {
                    a
                } else {
                    a + 1
                };
                assert(rest[a] == p[a0]);
                assert(p[a0] != p[j]);
            }
        }
        lemma_permuted(small, rest);
        let picked_rest = rest.map_values(|i: usize| small[i as int]);
        assert(picked_rest =~= picked.remove(j)) by {
            assert forall|a: int| 0 <= a < picked_rest.len() implies picked_rest[a]
                == picked.remove(j)[a] by {
                assert(rest[a] < small.len());
            }
        }
        assert(picked[j] == s.last());
        to_multiset_remove(picked, j);
        to_multiset_build(small, s.last());
        assert(small.push(s.last()) =~= s);
        to_multiset_contains(picked, s.last());
        assert(picked.contains(picked[j]));
        assert(picked.to_multiset() =~= s.to_multiset());
    }
}

/// Lists with the same items still have the same items when each is replaced by its image.
proof fn lemma_mapped<A, B>(a: Seq<A>, b: Seq<A>, f: spec_fn(A) -> B)
    requires
        a.to_multiset() == b.to_multiset(),
    ensures
        a.map_values(f).to_multiset() == b.map_values(f).to_multiset(),
    decreases a.len(),
{
    to_multiset_len(a);
    to_multiset_len(b);
    if a.len() == 0 {
        assert(a.map_values(f) =~= b.map_values(f));
    } else {
        let x = a.last();
        to_multiset_contains(a, x);
        to_multiset_contains(b, x);
        assert(a.contains(x));
        let j = choose|j: int| 0 <= j < b.len() && b[j] == x;
        to_multiset_remove(b, j);
        to_multiset_build(a.drop_last(), x);
        assert(a.drop_last().push(x) =~= a);
        assert(a.drop_last().to_multiset() =~= b.remove(j).to_multiset());
        lemma_mapped(a.drop_last(), b.remove(j), f);
        let fa = a.map_values(f);
        let fb = b.map_values(f);
        assert(a.drop_last().map_values(f).push(f(x)) =~= fa);
        to_multiset_build(a.drop_last().map_values(f), f(x));
        assert(fb.remove(j) =~= b.remove(j).map_values(f));
        to_multiset_remove(fb, j);
        to_multiset_contains(fb, f(x));
        assert(fb[j] == f(x));
        assert(fa.to_multiset() =~= fb.to_multiset());
    }
}

proof fn lemma_lex_order()
    ensures
        total_ordering(|a: Seq<u32>, b: Seq<u32>| order::lex_le(a, b)),
{
    assert forall|a: Seq<u32>, b: Seq<u32>|
        order::lex_le(a, b) && order::lex_le(b, a) implies a == b by {
        order::lemma_lex_antisymmetric(a, b);
    }
    assert forall|a: Seq<u32>, b: Seq<u32>, c: Seq<u32>|
        order::lex_le(a, b) && order::lex_le(b, c) implies order::lex_le(a, c) by {
        order::lemma_lex_transitive(a, b, c);
    }
    assert forall|a: Seq<u32>, b: Seq<u32>| order::lex_le(a, b) || order::lex_le(b, a) by {
        order::lemma_lex_total(a, b);
    }
    assert forall|a: Seq<u32>| order::lex_le(a, a) by {
        order::lemma_lex_total(a, a);
    }
}

/// Keys in ascending order are determined by which keys there are.
proof fn lemma_sorted_keys(k1: Seq<Seq<u32>>, k2: Seq<Seq<u32>>, p1: Seq<usize>, p2: Seq<usize>)
    requires
        k1.to_multiset() == k2.to_multiset(),
        order::permutes(p1, k1.len()),
        order::permutes(p2, k2.len()),
        order::ascending(k1, p1),
        order::ascending(k2, p2),
    ensures
        p1.map_values(|i: usize| k1[i as int]) == p2.map_values(|i: usize| k2[i as int]),
{
    let s1 = p1.map_values(|i: usize| k1[i as int]);
    let s2 = p2.map_values(|i: usize| k2[i as int]);
    let le = |a: Seq<u32>, b: Seq<u32>| order::lex_le(a, b);
    lemma_lex_order();
    lemma_permuted(k1, p1);
    lemma_permuted(k2, p2);
    assert(sorted_by(s1, le)) by {
        assert forall|i: int, j: int| 0 <= i < j < s1.len() implies #[trigger] le(s1[i], s1[j]) by {
            assert(s1[i] == k1[p1[i] as int] && s1[j] == k1[p1[j] as int]);
        }
    }
    assert(sorted_by(s2, le)) by {
        assert forall|i: int, j: int| 0 <= i < j < s2.len() implies #[trigger] le(s2[i], s2[j]) by {
            assert(s2[i] == k2[p2[i] as int] && s2[j] == k2[p2[j] as int]);
        }
    }
    lemma_sorted_unique(s1, s2, le);
}

/// The files are those that the weight map mentions, each once.
proof fn lemma_distinct_files(w: Seq<(String, String)>)
    ensures
        index_files::distinct_files(w).no_duplicates(),
        forall|f: Seq<char>| #[trigger]
            index_files::distinct_files(w).contains(f) <==> exists|k: int|
                0 <= k < w.len() && (#[trigger] w[k]).1@ == f,
    decreases w.len(),
{
    if w.len() > 0 {
        let before = w.drop_last();
        lemma_distinct_files(before);
        let all = index_files::distinct_files(w);
        let old_files = index_files::distinct_files(before);
        let file = w.last().1@;
        assert forall|f: Seq<char>| #[trigger] all.contains(f) <==> exists|k: int|
            0 <= k < w.len() && (#[trigger] w[k]).1@ == f by {
            if all.contains(f) {
                let i = choose|i: int| 0 <= i < all.len() && all[i] == f;
                if i < old_files.len() {
                    assert(old_files[i] == f);
                    assert(old_files.contains(f));
                    let k = choose|k: int| 0 <= k < before.len() && (#[trigger] before[k]).1@ == f;
                    assert(w[k].1@ == f);
                } else {
                    assert(w[w.len() - 1].1@ == f);
                }
            }
            if exists|k: int| 0 <= k < w.len() && (#[trigger] w[k]).1@ == f {
                let k = choose|k: int| 0 <= k < w.len() && (#[trigger] w[k]).1@ == f;
                if k < before.len() {
                    assert(before[k].1@ == f);
                    assert(old_files.contains(f));
                    let i = choose|i: int| 0 <= i < old_files.len() && old_files[i] == f;
                    assert(all[i] == f);
                } else if !old_files.contains(f) {
                    assert(all[old_files.len() as int] == f);
                }
            }
        }
    }
}

/// The items of a weight map as texts.
pub open spec fn map_entries(w: Seq<(String, String)>) -> Seq<(Seq<char>, Seq<char>)> {
    w.map_values(|e: (String, String)| (e.0@, e.1@))
}

/// Two weight maps hold the same items, in whatever order.
pub open spec fn same_entries(w1: Seq<(String, String)>, w2: Seq<(String, String)>) -> bool {
    map_entries(w1).to_multiset() == map_entries(w2).to_multiset()
}

proof fn lemma_same_entry(w1: Seq<(String, String)>, w2: Seq<(String, String)>, k: int) -> (j: int)
    requires
        same_entries(w1, w2),
        0 <= k < w1.len(),
    ensures
        0 <= j < w2.len(),
        w2[j].0@ == w1[k].0@,
        w2[j].1@ == w1[k].1@,
{
    let e1 = map_entries(w1);
    let e2 = map_entries(w2);
    to_multiset_contains(e1, e1[k]);
    to_multiset_contains(e2, e1[k]);
    assert(e1.contains(e1[k]));
    let j = choose|j: int| 0 <= j < e2.len() && e2[j] == e1[k];
    j
}

proof fn lemma_same_files(w1: Seq<(String, String)>, w2: Seq<(String, String)>)
    requires
        same_entries(w1, w2),
    ensures
        index_files::distinct_files(w1).to_multiset() == index_files::distinct_files(
            w2,
        ).to_multiset(),
{
    let f1 = index_files::distinct_files(w1);
    let f2 = index_files::distinct_files(w2);
    lemma_distinct_files(w1);
    lemma_distinct_files(w2);
    f1.lemma_multiset_has_no_duplicates();
    f2.lemma_multiset_has_no_duplicates();
    assert forall|f: Seq<char>| f1.to_multiset().count(f) == f2.to_multiset().count(f) by {
        to_multiset_contains(f1, f);
        to_multiset_contains(f2, f);
        if f1.contains(f) {
            let k = choose|k: int| 0 <= k < w1.len() && (#[trigger] w1[k]).1@ == f;
            let j = lemma_same_entry(w1, w2, k);
            assert(w2[j].1@ == f);
            assert(f2.contains(f));
        }
        if f2.contains(f) {
            let k = choose|k: int| 0 <= k < w2.len() && (#[trigger] w2[k]).1@ == f;
            let j = lemma_same_entry(w2, w1, k);
            assert(w1[j].1@ == f);
            assert(f1.contains(f));
        }
    }
    assert(f1.to_multiset() =~= f2.to_multiset());
}

/// The weight files come in the same order, path for path, whatever order the weight map is gone
/// through in.
pub proof fn law_file_order(
    dir: Seq<char>,
    w1: Seq<(String, String)>,
    w2: Seq<(String, String)>,
    r1: Seq<Seq<char>>,
    r2: Seq<Seq<char>>,
)
    requires
        same_entries(w1, w2),
        ({
            let paths = index_files::joined_paths(dir, index_files::distinct_files(w1));
            index_files::sorted_listing(paths, index_files::path_keys(paths), r1)
        }),
        ({
            let paths = index_files::joined_paths(dir, index_files::distinct_files(w2));
            index_files::sorted_listing(paths, index_files::path_keys(paths), r2)
        }),
    ensures
        r1.len() == r2.len(),
        forall|i: int| 0 <= i < r1.len() ==> path::same_path(#[trigger] r1[i], r2[i]),
{
    let a1 = index_files::joined_paths(dir, index_files::distinct_files(w1));
    let a2 = index_files::joined_paths(dir, index_files::distinct_files(w2));
    let k1 = index_files::path_keys(a1);
    let k2 = index_files::path_keys(a2);
    let p1 = choose|p: Seq<usize>| #[trigger]
        order::permutes(p, a1.len()) && order::ascending(k1, p) && r1 == index_files::picked(a1, p);
    let p2 = choose|p: Seq<usize>| #[trigger]
        order::permutes(p, a2.len()) && order::ascending(k2, p) && r2 == index_files::picked(a2, p);
    lemma_same_files(w1, w2);
    lemma_mapped(
        index_files::distinct_files(w1),
        index_files::distinct_files(w2),
        |f: Seq<char>| path::join_spec(dir, f),
    );
    lemma_mapped(a1, a2, |p: Seq<char>| path::path_key(p));
    lemma_sorted_keys(k1, k2, p1, p2);
    let s1 = p1.map_values(|i: usize| k1[i as int]);
    let s2 = p2.map_values(|i: usize| k2[i as int]);
    assert(s1.len() == s2.len());
    assert forall|i: int| 0 <= i < r1.len() implies path::same_path(#[trigger] r1[i], r2[i]) by {
        assert(p1[i] < a1.len() && p2[i] < a2.len());
        assert(s1[i] == path::path_key(r1[i]));
        assert(s2[i] == path::path_key(r2[i]));
    }
}

/// Two indexes that hold the same tensors are listed in the same way, in whatever order the
/// tensors were put in.
pub proof fn law_listing(
    a: TensorIndex,
    b: TensorIndex,
    lines_a: Seq<Seq<char>>,
    lines_b: Seq<Seq<char>>,
)
    requires
        a.wf(),
        b.wf(),
        a.tensors@ == b.tensors@,
        index_files::is_listing(a, lines_a),
        index_files::is_listing(b, lines_b),
    ensures
        lines_a == lines_b,
{
    let o1 = a.tensors.order();
    let o2 = b.tensors.order();
    a.tensors.lemma_order();
    b.tensors.lemma_order();
    o1.lemma_multiset_has_no_duplicates();
    o2.lemma_multiset_has_no_duplicates();
    assert forall|n: Seq<char>| o1.to_multiset().count(n) == o2.to_multiset().count(n) by {
        to_multiset_contains(o1, n);
        to_multiset_contains(o2, n);
        assert(o1.contains(n) <==> a.tensors@.contains_key(n));
        assert(o2.contains(n) <==> b.tensors@.contains_key(n));
    }
    assert(o1.to_multiset() =~= o2.to_multiset());
    let k1 = index_files::text_keys(o1);
    let k2 = index_files::text_keys(o2);
    lemma_mapped(o1, o2, |n: Seq<char>| path::text_key(n));
    let n1 = choose|names: Seq<Seq<char>>| #[trigger]
        index_files::sorted_listing(o1, k1, names) && lines_a == names.map_values(
            |n: Seq<char>| index_files::listing_line(n, a.tensors@[n]),
        );
    let n2 = choose|names: Seq<Seq<char>>| #[trigger]
        index_files::sorted_listing(o2, k2, names) && lines_b == names.map_values(
            |n: Seq<char>| index_files::listing_line(n, b.tensors@[n]),
        );
    let p1 = choose|p: Seq<usize>| #[trigger]
        order::permutes(p, o1.len()) && order::ascending(k1, p) && n1 == index_files::picked(o1, p);
    let p2 = choose|p: Seq<usize>| #[trigger]
        order::permutes(p, o2.len()) && order::ascending(k2, p) && n2 == index_files::picked(o2, p);
    lemma_sorted_keys(k1, k2, p1, p2);
    let s1 = p1.map_values(|i: usize| k1[i as int]);
    let s2 = p2.map_values(|i: usize| k2[i as int]);
    assert(s1.len() == s2.len());
    assert forall|i: int| 0 <= i < n1.len() implies n1[i] == n2[i] by {
        assert(p1[i] < o1.len() && p2[i] < o2.len());
        assert(s1[i] == path::text_key(n1[i]));
        assert(s2[i] == path::text_key(n2[i]));
        path::lemma_text_key_injective(n1[i], n2[i]);
    }
    assert(n1 =~= n2);
    assert(lines_a =~= lines_b);
}

/// The files and lists of an index are those of a weight map.
pub open spec fn indexes(ti: TensorIndex, dir: Seq<char>, w: Seq<(String, String)>) -> bool {
    let paths = index_files::joined_paths(dir, index_files::distinct_files(w));
    &&& index_files::sorted_listing(
        paths,
        index_files::path_keys(paths),
        text::texts(ti.weight_files@),
    )
    &&& forall|at: Seq<char>| #[trigger]
        index_files::names_listed(ti.file_tensors@, at) == index_files::unless_empty(
            index_files::names_at(dir, w, at),
        )
    &&& index_files::listed_once(ti.file_tensors@)
    &&& index_files::total_names(ti.file_tensors@) == w.len()
}

/// A name is listed for a path exactly if the weight map finds it there.
proof fn lemma_names_at(dir: Seq<char>, w: Seq<(String, String)>, at: Seq<char>, name: Seq<char>)
    ensures
        index_files::names_at(dir, w, at).contains(name) <==> exists|k: int|
            0 <= k < w.len() && (#[trigger] w[k]).0@ == name && path::same_path(
                path::join_spec(dir, w[k].1@),
                at,
            ),
    decreases w.len(),
{
    if w.len() > 0 {
        let before = w.drop_last();
        lemma_names_at(dir, before, at, name);
        let old_names = index_files::names_at(dir, before, at);
        let names = index_files::names_at(dir, w, at);
        if names.contains(name) {
            let i = choose|i: int| 0 <= i < names.len() && names[i] == name;
            if i < old_names.len() {
                assert(old_names[i] == name);
                assert(old_names.contains(name));
                let k = choose|k: int|
                    0 <= k < before.len() && (#[trigger] before[k]).0@ == name && path::same_path(
                        path::join_spec(dir, before[k].1@),
                        at,
                    );
                assert(w[k].0@ == name);
            } else {
                assert(w[w.len() - 1].0@ == name);
            }
        }
        if exists|k: int|
            0 <= k < w.len() && (#[trigger] w[k]).0@ == name && path::same_path(
                path::join_spec(dir, w[k].1@),
                at,
            ) {
            let k = choose|k: int|
                0 <= k < w.len() && (#[trigger] w[k]).0@ == name && path::same_path(
                    path::join_spec(dir, w[k].1@),
                    at,
                );
            if k < before.len() {
                assert(before[k].0@ == name);
                assert(old_names.contains(name));
                let i = choose|i: int| 0 <= i < old_names.len() && old_names[i] == name;
                assert(names[i] == name);
            } else {
                assert(names[names.len() - 1] == name);
            }
        }
    }
}

proof fn lemma_permuted_contains(s: Seq<Seq<char>>, p: Seq<usize>, x: Seq<char>)
    requires
        order::permutes(p, s.len()),
    ensures
        index_files::picked(s, p).contains(x) <==> s.contains(x),
{
    lemma_permuted(s, p);
    let picked = index_files::picked(s, p);
    assert(picked =~= p.map_values(|i: usize| s[i as int]));
    to_multiset_contains(s, x);
    to_multiset_contains(picked, x);
}

/// Every tensor of the weight map is listed for its file, and the file is one of the weight
/// files.
pub proof fn law_every_tensor_is_listed(
    ti: TensorIndex,
    dir: Seq<char>,
    w: Seq<(String, String)>,
    k: int,
)
    requires
        indexes(ti, dir, w),
        0 <= k < w.len(),
    ensures
        ({
            let at = path::join_spec(dir, w[k].1@);
            &&& text::texts(ti.weight_files@).contains(at)
            &&& index_files::names_listed(ti.file_tensors@, at) matches Some(names)
                && names.contains(w[k].0@)
        }),
{
    let files = index_files::distinct_files(w);
    let paths = index_files::joined_paths(dir, files);
    let r = text::texts(ti.weight_files@);
    let at = path::join_spec(dir, w[k].1@);
    lemma_distinct_files(w);
    assert(w[k].1@ == w[k].1@);
    assert(files.contains(w[k].1@));
    let i = choose|i: int| 0 <= i < files.len() && files[i] == w[k].1@;
    assert(paths[i] == at);
    assert(paths.contains(at));
    let p = choose|p: Seq<usize>| #[trigger]
        order::permutes(p, paths.len()) && order::ascending(index_files::path_keys(paths), p) && r
            == index_files::picked(paths, p);
    lemma_permuted_contains(paths, p, at);
    lemma_names_at(dir, w, at, w[k].0@);
    assert(path::same_path(path::join_spec(dir, w[k].1@), at));
    let names = index_files::names_at(dir, w, at);
    assert(names.contains(w[k].0@));
    assert(index_files::names_listed(ti.file_tensors@, at) == Some(names));
}

/// Every weight file has names listed for it, and the weight map finds each of these there.
pub proof fn law_every_file_has_tensors(
    ti: TensorIndex,
    dir: Seq<char>,
    w: Seq<(String, String)>,
    i: int,
)
    requires
        indexes(ti, dir, w),
        0 <= i < ti.weight_files@.len(),
    ensures
        ({
            let at = ti.weight_files@[i]@;
            index_files::names_listed(ti.file_tensors@, at) matches Some(names) && names.len() > 0
                && forall|name: Seq<char>| #[trigger]
                names.contains(name) ==> exists|k: int|
                    0 <= k < w.len() && (#[trigger] w[k]).0@ == name && path::same_path(
                        path::join_spec(dir, w[k].1@),
                        at,
                    )
        }),
{
    let files = index_files::distinct_files(w);
    let paths = index_files::joined_paths(dir, files);
    let r = text::texts(ti.weight_files@);
    let at = ti.weight_files@[i]@;
    assert(r[i] == at);
    assert(r.contains(at));
    let p = choose|p: Seq<usize>| #[trigger]
        order::permutes(p, paths.len()) && order::ascending(index_files::path_keys(paths), p) && r
            == index_files::picked(paths, p);
    lemma_permuted_contains(paths, p, at);
    let j = choose|j: int| 0 <= j < paths.len() && paths[j] == at;
    lemma_distinct_files(w);
    assert(files.contains(files[j]));
    let k = choose|k: int| 0 <= k < w.len() && (#[trigger] w[k]).1@ == files[j];
    assert(path::same_path(path::join_spec(dir, w[k].1@), at));
    lemma_names_at(dir, w, at, w[k].0@);
    let names = index_files::names_at(dir, w, at);
    assert(names.contains(w[k].0@));
    assert(index_files::names_listed(ti.file_tensors@, at) == Some(names));
    assert forall|name: Seq<char>| #[trigger] names.contains(name) implies exists|k: int|
        0 <= k < w.len() && (#[trigger] w[k]).0@ == name && path::same_path(
            path::join_spec(dir, w[k].1@),
            at,
        ) by {
        lemma_names_at(dir, w, at, name);
    }
}

proof fn lemma_own_list(groups: Seq<FileTensors>, i: int)
    requires
        index_files::listed_once(groups),
        0 <= i < groups.len(),
    ensures
        index_files::names_listed(groups, groups[i].path@) == Some(text::texts(groups[i].names@)),
    decreases groups.len(),
{
    if i < groups.len() - 1 {
        let before = groups.drop_last();
        let last = groups.len() - 1;
        assert(!path::same_path(groups[i].path@, groups[last].path@));
        assert forall|a: int, b: int| 0 <= a < b < before.len() implies !path::same_path(
            #[trigger] before[a].path@,
            #[trigger] before[b].path@,
        ) by {
            assert(!path::same_path(groups[a].path@, groups[b].path@));
        }
        assert(before[i] == groups[i]);
        lemma_own_list(before, i);
    }
}

/// Every list is for one of the weight files and is not empty.
pub proof fn law_every_list_is_of_a_file(
    ti: TensorIndex,
    dir: Seq<char>,
    w: Seq<(String, String)>,
    i: int,
)
    requires
        indexes(ti, dir, w),
        0 <= i < ti.file_tensors@.len(),
    ensures
        ti.file_tensors@[i].names@.len() > 0,
        exists|j: int|
            0 <= j < ti.weight_files@.len() && path::same_path(
                #[trigger] ti.weight_files@[j]@,
                ti.file_tensors@[i].path@,
            ),
{
    let at = ti.file_tensors@[i].path@;
    lemma_own_list(ti.file_tensors@, i);
    let names = index_files::names_at(dir, w, at);
    let listed = text::texts(ti.file_tensors@[i].names@);
    assert(index_files::names_listed(ti.file_tensors@, at) == index_files::unless_empty(names));
    assert(names == listed && names.len() > 0);
    assert(names.contains(names[0]));
    lemma_names_at(dir, w, at, names[0]);
    let k = choose|k: int|
        0 <= k < w.len() && (#[trigger] w[k]).0@ == names[0] && path::same_path(
            path::join_spec(dir, w[k].1@),
            at,
        );
    law_every_tensor_is_listed(ti, dir, w, k);
    let files = text::texts(ti.weight_files@);
    let j = choose|j: int| 0 <= j < files.len() && files[j] == path::join_spec(dir, w[k].1@);
    assert(ti.weight_files@[j]@ == files[j]);
}

/// A list names no tensor twice, if the weight map does not.
pub proof fn law_no_name_is_listed_twice(
    dir: Seq<char>,
    w: Seq<(String, String)>,
    at: Seq<char>,
)
    requires
        forall|i: int, j: int|
            0 <= i < j < w.len() ==> (#[trigger] w[i]).0@ != (#[trigger] w[j]).0@,
    ensures
        index_files::names_at(dir, w, at).no_duplicates(),
    decreases w.len(),
{
    if w.len() > 0 {
        let before = w.drop_last();
        let last = w.len() - 1;
        assert forall|i: int, j: int| 0 <= i < j < before.len() implies (#[trigger] before[i]).0@
            != (#[trigger] before[j]).0@ by {
            assert(w[i].0@ != w[j].0@);
        }
        law_no_name_is_listed_twice(dir, before, at);
        lemma_names_at(dir, before, at, w[last].0@);
        let names = index_files::names_at(dir, before, at);
        if names.contains(w[last].0@) {
            let k = choose|k: int|
                0 <= k < before.len() && (#[trigger] before[k]).0@ == w[last].0@
                    && path::same_path(path::join_spec(dir, before[k].1@), at);
            assert(w[k].0@ != w[last].0@);
        }
    }
}

/// A header says nothing of this name from entry `from` on.
pub open spec fn unnamed_from(entries: Seq<HeaderEntry>, from: int, name: Seq<char>) -> bool {
    forall|i: int| from <= i < entries.len() ==> (#[trigger] entries[i]).name@ != name
}

proof fn lemma_entries(
    m: Map<Seq<char>, TensorMeta>,
    entries: Seq<HeaderEntry>,
    start: nat,
    name: Seq<char>,
)
    ensures
        unnamed_from(entries, 0, name) ==> {
            let all = index_files::with_entries(m, entries, start);
            &&& all.contains_key(name) == m.contains_key(name)
            &&& m.contains_key(name) ==> all[name] == m[name]
        },
    decreases entries.len(),
{
    if entries.len() > 0 && unnamed_from(entries, 0, name) {
        let before = entries.drop_last();
        assert(unnamed_from(before, 0, name)) by {
            assert forall|i: int| 0 <= i < before.len() implies (#[trigger] before[i]).name@
                != name by {
                assert(entries[i].name@ != name);
            }
        }
        lemma_entries(m, before, start, name);
        assert(entries[entries.len() - 1].name@ != name);
    }
}

proof fn lemma_entry(
    m: Map<Seq<char>, TensorMeta>,
    entries: Seq<HeaderEntry>,
    start: nat,
    j: int,
)
    requires
        0 <= j < entries.len(),
        unnamed_from(entries, j + 1, entries[j].name@),
    ensures
        ({
            let all = index_files::with_entries(m, entries, start);
            &&& all.contains_key(entries[j].name@)
            &&& all[entries[j].name@] == index_files::declared(entries[j], start)
        }),
    decreases entries.len(),
{
    let name = entries[j].name@;
    if j < entries.len() - 1 {
        let before = entries.drop_last();
        assert(unnamed_from(before, j + 1, name)) by {
            assert forall|i: int| j + 1 <= i < before.len() implies (#[trigger] before[i]).name@
                != name by {
                assert(entries[i].name@ != name);
            }
        }
        lemma_entry(m, before, start, j);
        assert(entries[entries.len() - 1].name@ != name);
    }
}

/// The last header entry of a name is what the index holds of it: its element type and shape,
/// and its bytes, which are counted from behind the header and the eight bytes of its length. It
/// starts out without a buffer, without a wanted type, and not split.
pub proof fn law_last_declaration(headers: Seq<FileHeader>, i: int, j: int)
    requires
        0 <= i < headers.len(),
        0 <= j < headers[i].entries@.len(),
        index_files::offsets_fit(headers[i]),
        unnamed_from(headers[i].entries@, j + 1, headers[i].entries@[j].name@),
        forall|k: int|
            i < k < headers.len() ==> unnamed_from(
                (#[trigger] headers[k]).entries@,
                0,
                headers[i].entries@[j].name@,
            ),
    ensures
        ({
            let entry = headers[i].entries@[j];
            let all = index_files::declared_tensors(headers);
            let meta = all[entry.name@];
            &&& all.contains_key(entry.name@)
            &&& meta.src_dtype == entry.dtype
            &&& meta.shape == entry.shape
            &&& meta.data_offsets.0 == 8 + headers[i].header_size + entry.data_offsets.0
            &&& meta.data_offsets.1 == 8 + headers[i].header_size + entry.data_offsets.1
            &&& meta.dst_dtype is None
            &&& meta.buffer is None
            &&& meta.dist == Dist::Replicated
        }),
    decreases headers.len(),
{
    let entry = headers[i].entries@[j];
    let last = headers.last();
    let before = headers.drop_last();
    if i == headers.len() - 1 {
        lemma_entry(
            index_files::declared_tensors(before),
            last.entries@,
            index_files::data_start(last),
            j,
        );
        assert(headers[i].entries@[j].data_offsets.0 + index_files::data_start(headers[i])
            <= usize::MAX);
    } else {
        assert forall|k: int| i < k < before.len() implies unnamed_from(
            (#[trigger] before[k]).entries@,
            0,
            entry.name@,
        ) by {
            assert(unnamed_from(headers[k].entries@, 0, entry.name@));
        }
        law_last_declaration(before, i, j);
        assert(unnamed_from(headers[headers.len() - 1].entries@, 0, entry.name@));
        lemma_entries(
            index_files::declared_tensors(before),
            last.entries@,
            index_files::data_start(last),
            entry.name@,
        );
    }
}

/// Putting down a buffer keeps every other tensor as it was, and of this one everything but how
/// it is split and its buffer. No tensor comes or goes.
pub proof fn law_register(
    m: Map<Seq<char>, TensorMeta>,
    name: Seq<char>,
    buffer: Tensor,
    dist: Dist,
    other: Seq<char>,
)
    ensures
        ({
            let after = tensor_index::registered(m, name, buffer, dist);
            &&& after.dom() == m.dom()
            &&& other != name && m.contains_key(other) ==> after[other] == m[other]
            &&& m.contains_key(name) ==> {
                &&& after[name].buffer == Some(buffer)
                &&& after[name].dist == dist
                &&& after[name].src_dtype == m[name].src_dtype
                &&& after[name].shape == m[name].shape
                &&& after[name].data_offsets == m[name].data_offsets
                &&& after[name].dst_dtype == m[name].dst_dtype
            }
        }),
{
    let after = tensor_index::registered(m, name, buffer, dist);
    assert(after.dom() =~= m.dom());
}

proof fn lemma_entries_only(
    m: Map<Seq<char>, TensorMeta>,
    entries: Seq<HeaderEntry>,
    start: nat,
    name: Seq<char>,
)
    requires
        index_files::with_entries(m, entries, start).contains_key(name),
        !m.contains_key(name),
    ensures
        exists|j: int| 0 <= j < entries.len() && (#[trigger] entries[j]).name@ == name,
    decreases entries.len(),
{
    if entries.len() > 0 {
        if entries.last().name@ == name {
            assert(entries[entries.len() - 1].name@ == name);
        } else {
            lemma_entries_only(m, entries.drop_last(), start, name);
            let j = choose|j: int|
                0 <= j < entries.drop_last().len() && (#[trigger] entries.drop_last()[j]).name@
                    == name;
            assert(entries[j].name@ == name);
        }
    }
}

/// An index holds no tensor that no header declares.
pub proof fn law_only_what_is_declared(headers: Seq<FileHeader>, name: Seq<char>)
    requires
        index_files::declared_tensors(headers).contains_key(name),
    ensures
        exists|i: int, j: int|
            #![trigger headers[i].entries@[j]]
            0 <= i < headers.len() && 0 <= j < headers[i].entries@.len()
                && headers[i].entries@[j].name@ == name,
    decreases headers.len(),
{
    if headers.len() > 0 {
        let before = headers.drop_last();
        if index_files::declared_tensors(before).contains_key(name) {
            law_only_what_is_declared(before, name);
            let (i, j) = choose|i: int, j: int|
                #![trigger before[i].entries@[j]]
                0 <= i < before.len() && 0 <= j < before[i].entries@.len()
                    && before[i].entries@[j].name@ == name;
            assert(headers[i].entries@[j].name@ == name);
        } else {
            let last = headers.len() - 1;
            lemma_entries_only(
                index_files::declared_tensors(before),
                headers.last().entries@,
                index_files::data_start(headers.last()),
                name,
            );
            let j = choose|j: int|
                0 <= j < headers[last].entries@.len() && (#[trigger] headers[last].entries@[j]).name@
                    == name;
            assert(headers[last].entries@[j].name@ == name);
        }
    }
}

/// An index is built of the tensors that the headers declare and of the files and lists of the
/// weight map, and knows the size of the largest file.
pub proof fn law_index_is_built(
    dir: &str,
    w: Vec<(String, String)>,
    headers: Vec<FileHeader>,
    sizes: Vec<Option<usize>>,
    r: TensorIndex,
    largest: usize,
)
    requires
        call_ensures(TensorIndex::new, (dir, &w, &headers, &sizes), r),
        call_ensures(largest_size, (&sizes,), largest),
    ensures
        r.wf(),
        r.tensors@ == index_files::declared_tensors(headers@),
        indexes(r, dir@, w@),
        r.max_file_size == largest,
        forall|i: int|
            #![trigger sizes@[i]]
            0 <= i < sizes@.len() && sizes@[i] is Some ==> sizes@[i]->0 <= largest,
        largest > 0 ==> exists|i: int|
            #![trigger sizes@[i]]
            0 <= i < sizes@.len() && sizes@[i] == Some(largest),
{
    let max = r.max_file_size;
    if max > 0 {
        let i = choose|i: int|
            #![trigger sizes@[i]]
            0 <= i < sizes@.len() && sizes@[i] == Some(max);
        assert(sizes@[i] == Some(max));
    }
    if largest > 0 {
        let i = choose|i: int|
            #![trigger sizes@[i]]
            0 <= i < sizes@.len() && sizes@[i] == Some(largest);
        assert(sizes@[i] == Some(largest));
    }
}

/// The weight files are those that the weight map mentions, each once, seen from the directory, in
/// the order of their paths.
pub proof fn law_weight_files(dir: &str, w: Vec<(String, String)>, r: Vec<String>)
    requires
        call_ensures(weight_files, (dir, &w), r),
    ensures
        exists|files: Seq<Seq<char>>|
            #![trigger files.no_duplicates()]
            {
                &&& files.no_duplicates()
                &&& forall|f: Seq<char>| #[trigger]
                    files.contains(f) <==> exists|k: int|
                        0 <= k < w@.len() && (#[trigger] w@[k]).1@ == f
                &&& text::texts(r@).to_multiset() == files.map_values(
                    |f: Seq<char>| path::join_spec(dir@, f),
                ).to_multiset()
            },
        forall|i: int, j: int|
            #![trigger r@[i], r@[j]]
            0 <= i < j < r@.len() ==> in_dictionary_order(
                path::path_key(r@[i]@),
                path::path_key(r@[j]@),
            ),
{
    let files = index_files::distinct_files(w@);
    let paths = index_files::joined_paths(dir@, files);
    let keys = index_files::path_keys(paths);
    let listed = text::texts(r@);
    lemma_distinct_files(w@);
    let p = choose|p: Seq<usize>| #[trigger]
        order::permutes(p, paths.len()) && order::ascending(keys, p) && listed
            == index_files::picked(paths, p);
    lemma_permuted(paths, p);
    assert(listed =~= p.map_values(|i: usize| paths[i as int]));
    assert(listed.len() == r@.len() && listed.len() == p.len());
    assert(paths =~= files.map_values(|f: Seq<char>| path::join_spec(dir@, f)));
    assert(files.no_duplicates());
    assert forall|i: int, j: int|
        #![trigger r@[i], r@[j]]
        0 <= i < j < r@.len() implies in_dictionary_order(
        path::path_key(r@[i]@),
        path::path_key(r@[j]@),
    ) by {
        assert(listed[i] == r@[i]@ && listed[j] == r@[j]@);
        assert(p[i] < paths.len() && p[j] < paths.len());
        assert(order::lex_le(keys[p[i] as int], keys[p[j] as int]));
        text_laws::law_dictionary_order(keys[p[i] as int], keys[p[j] as int]);
    }
}

/// The items of a weight map whose file is at a path.
pub open spec fn items_at(dir: Seq<char>, w: Seq<(String, String)>, at: Seq<char>) -> Seq<
    (String, String),
> {
    w.filter(|e: (String, String)| path::same_path(path::join_spec(dir, e.1@), at))
}

proof fn lemma_items_at(dir: Seq<char>, w: Seq<(String, String)>, at: Seq<char>)
    ensures
        index_files::names_at(dir, w, at) == items_at(dir, w, at).map_values(
            |e: (String, String)| e.0@,
        ),
    decreases w.len(),
{
    reveal(Seq::filter);
    let name = |e: (String, String)| e.0@;
    if w.len() > 0 {
        lemma_items_at(dir, w.drop_last(), at);
        let before = items_at(dir, w.drop_last(), at);
        if path::same_path(path::join_spec(dir, w.last().1@), at) {
            assert(items_at(dir, w, at) =~= before.push(w.last()));
        } else {
            assert(items_at(dir, w, at) =~= before);
        }
        assert(index_files::names_at(dir, w, at) =~= items_at(dir, w, at).map_values(name));
    } else {
        assert(index_files::names_at(dir, w, at) =~= items_at(dir, w, at).map_values(name));
    }
}

/// The names that an index lists for a path are those of all items of the weight map that have
/// their file there, in its order. None are listed where it has no item.
pub proof fn law_names_in_file(
    ti: TensorIndex,
    dir: Seq<char>,
    w: Seq<(String, String)>,
    at: &str,
    r: Option<&Vec<String>>,
)
    requires
        indexes(ti, dir, w),
        call_ensures(TensorIndex::names_in_file, (&ti, at), r),
    ensures
        r is Some <==> items_at(dir, w, at@).len() > 0,
        r matches Some(names) ==> {
            &&& names@.len() == items_at(dir, w, at@).len()
            &&& forall|i: int|
                0 <= i < names@.len() ==> (#[trigger] names@[i])@ == items_at(dir, w, at@)[i].0@
        },
{
    let items = items_at(dir, w, at@);
    lemma_items_at(dir, w, at@);
    let names = index_files::names_at(dir, w, at@);
    assert(names.len() == items.len());
    assert(index_files::names_listed(ti.file_tensors@, at@) == index_files::unless_empty(names));
    if let Some(v) = r {
        assert(text::texts(v@) == names);
        assert forall|i: int| 0 <= i < v@.len() implies (#[trigger] v@[i])@ == items[i].0@ by {
            assert(text::texts(v@)[i] == v@[i]@);
        }
    }
}

/// Grouping the items of a weight map by file gives one list for each path, and no item is left
/// out or listed twice.
pub proof fn law_groups(dir: &str, w: Vec<(String, String)>, r: Vec<FileTensors>, i: int)
    requires
        call_ensures(group_by_file, (dir, &w), r),
        0 <= i < r@.len(),
    ensures
        index_files::total_names(r@) == w@.len(),
        forall|j: int|
            0 <= j < r@.len() && j != i ==> !path::same_path(
                r@[i].path@,
                (#[trigger] r@[j]).path@,
            ),
        text::texts(r@[i].names@) == items_at(dir@, w@, r@[i].path@).map_values(
            |e: (String, String)| e.0@,
        ),
{
    lemma_own_list(r@, i);
    lemma_items_at(dir@, w@, r@[i].path@);
    assert(index_files::names_listed(r@, r@[i].path@) == index_files::unless_empty(
        index_files::names_at(dir@, w@, r@[i].path@),
    ));
    assert forall|j: int| 0 <= j < r@.len() && j != i implies !path::same_path(
        r@[i].path@,
        (#[trigger] r@[j]).path@,
    ) by {
        if i < j {
            assert(!path::same_path(r@[i].path@, r@[j].path@));
        } else {
            assert(!path::same_path(r@[j].path@, r@[i].path@));
        }
    }
}

/// A header fits if every offset in it can be counted from the start of the file.
pub proof fn law_header_fits(h: FileHeader, r: bool)
    requires
        call_ensures(header_fits, (&h,), r),
    ensures
        r <==> 8 + h.header_size <= usize::MAX && forall|i: int|
            #![trigger h.entries@[i]]
            0 <= i < h.entries@.len() ==> 8 + h.header_size + h.entries@[i].data_offsets.0
                <= usize::MAX && 8 + h.header_size + h.entries@[i].data_offsets.1 <= usize::MAX,
{
}

/// A shape has its dimensions in the order in which they are declared, and a range its start and
/// end.
pub proof fn law_declared_numbers(
    dims: &[usize],
    shape: TensorShape,
    pair: &[usize],
    range: (usize, usize),
)
    requires
        dims@.len() == 1 || dims@.len() == 2,
        call_ensures(deserialize_shape, (dims,), shape),
        call_ensures(deserialize_pair, (pair,), range),
    ensures
        shape is D1 <==> dims@.len() == 1,
        shape matches TensorShape::D1(n) ==> n == dims@[0],
        shape matches TensorShape::D2(r, c) ==> r == dims@[0] && c == dims@[1],
        range.0 == pair@[0],
        range.1 == pair@[1],
{
}

/// A line of a listing: the name, then the element type in at least six places, then the
/// dimensions in brackets, each two spaces behind the other.
pub open spec fn is_line(name: Seq<char>, meta: TensorMeta, line: Seq<char>) -> bool {
    exists|gap: nat| #[trigger]
        fills_six(meta.src_dtype@, gap) && line == seq![' ', ' '] + name + seq![' ', ' ']
            + meta.src_dtype@ + Seq::new(gap, |i: int| ' ') + seq![' ', ' ', '['] + (
        match meta.shape {
            TensorShape::D1(n) => text::decimal(n as nat),
            TensorShape::D2(r, c) => text::decimal(r as nat) + seq![',', ' '] + text::decimal(
                c as nat,
            ),
        }) + seq![']']
}

/// As many spaces as a text is short of six characters.
pub open spec fn fills_six(s: Seq<char>, gap: nat) -> bool {
    if s.len() < 6 {
        s.len() + gap == 6
    } else {
        gap == 0
    }
}

proof fn lemma_line(name: Seq<char>, meta: TensorMeta)
    ensures
        is_line(name, meta, index_files::listing_line(name, meta)),
{
    reveal_strlit("  ");
    reveal_strlit("  [");
    reveal_strlit("]");
    reveal_strlit(", ");
    assert("  "@ =~= seq![' ', ' ']);
    assert("  ["@ =~= seq![' ', ' ', '[']);
    assert("]"@ =~= seq![']']);
    assert(", "@ =~= seq![',', ' ']);
    let s = meta.src_dtype@;
    let gap = if s.len() < 6 {
        (6 - s.len()) as nat
    } else {
        0
    };
    assert(fills_six(s, gap));
    let pad = Seq::new(gap, |i: int| ' ');
    assert(text::padded(s, 6) =~= s + pad);
    let dims = match meta.shape {
        TensorShape::D1(n) => text::decimal(n as nat),
        TensorShape::D2(r, c) => text::decimal(r as nat) + seq![',', ' '] + text::decimal(c as nat),
    };
    assert(index_files::listing_line(name, meta) =~= seq![' ', ' '] + name + seq![' ', ' '] + s + pad
        + seq![' ', ' ', '['] + dims + seq![']']);
}

/// A listing has a line for each tensor, in the order of their names, character by character.
pub proof fn law_listing_lines(ti: TensorIndex, r: Vec<String>)
    requires
        ti.wf(),
        call_ensures(TensorIndex::print_tensors, (&ti,), r),
    ensures
        exists|names: Seq<Seq<char>>|
            #![trigger names.no_duplicates()]
            {
                &&& names.len() == r@.len()
                &&& names.no_duplicates()
                &&& forall|n: Seq<char>| names.contains(n) <==> #[trigger] ti.tensors@.contains_key(n)
                &&& forall|i: int, j: int|
                    #![trigger names[i], names[j]]
                    0 <= i < j < names.len() ==> in_dictionary_order(
                        path_laws::code_points(names[i]),
                        path_laws::code_points(names[j]),
                    )
                &&& forall|i: int|
                    0 <= i < names.len() ==> is_line(
                        #[trigger] names[i],
                        ti.tensors@[names[i]],
                        r@[i]@,
                    )
            },
{
    let all = ti.tensors.order();
    let keys = index_files::text_keys(all);
    let lines = text::texts(r@);
    ti.tensors.lemma_order();
    let names = choose|names: Seq<Seq<char>>| #[trigger]
        index_files::sorted_listing(all, keys, names) && lines == names.map_values(
            |n: Seq<char>| index_files::listing_line(n, ti.tensors@[n]),
        );
    let p = choose|p: Seq<usize>| #[trigger]
        order::permutes(p, all.len()) && order::ascending(keys, p) && names == index_files::picked(
            all,
            p,
        );
    assert(lines.len() == r@.len());
    assert(names.no_duplicates()) by {
        assert forall|i: int, j: int| 0 <= i < j < names.len() implies names[i] != names[j] by {
            assert(p[i] < all.len() && p[j] < all.len() && p[i] != p[j]);
            assert(names[i] == all[p[i] as int] && names[j] == all[p[j] as int]);
        }
    }
    assert forall|n: Seq<char>| names.contains(n) <==> #[trigger] ti.tensors@.contains_key(n) by {
        lemma_permuted_contains(all, p, n);
        assert(all.contains(n) <==> ti.tensors@.contains_key(n));
    }
    assert forall|i: int, j: int|
        #![trigger names[i], names[j]]
        0 <= i < j < names.len() implies in_dictionary_order(
        path_laws::code_points(names[i]),
        path_laws::code_points(names[j]),
    ) by {
        assert(p[i] < all.len() && p[j] < all.len());
        assert(order::lex_le(keys[p[i] as int], keys[p[j] as int]));
        text_laws::law_dictionary_order(keys[p[i] as int], keys[p[j] as int]);
        assert(keys[p[i] as int] =~= path_laws::code_points(names[i]));
        assert(keys[p[j] as int] =~= path_laws::code_points(names[j]));
    }
    assert forall|i: int| 0 <= i < names.len() implies is_line(
        #[trigger] names[i],
        ti.tensors@[names[i]],
        r@[i]@,
    ) by {
        assert(lines[i] == r@[i]@);
        lemma_line(names[i], ti.tensors@[names[i]]);
    }
}

/// Of the lists for a path, the last is what an index lists for it, whatever it was made of.
pub proof fn law_last_list(ti: TensorIndex, at: &str, r: Option<&Vec<String>>, i: int)
    requires
        call_ensures(TensorIndex::names_in_file, (&ti, at), r),
    ensures
        r is None <==> forall|k: int|
            0 <= k < ti.file_tensors@.len() ==> !path::same_path(
                (#[trigger] ti.file_tensors@[k]).path@,
                at@,
            ),
        0 <= i < ti.file_tensors@.len() && path::same_path(ti.file_tensors@[i].path@, at@) && (
        forall|k: int|
            i < k < ti.file_tensors@.len() ==> !path::same_path(
                (#[trigger] ti.file_tensors@[k]).path@,
                at@,
            )) ==> r is Some && text::texts(r->0@) == text::texts(ti.file_tensors@[i].names@),
{
    lemma_last_list(ti.file_tensors@, at@, i);
}

proof fn lemma_last_list(groups: Seq<FileTensors>, at: Seq<char>, i: int)
    ensures
        index_files::names_listed(groups, at) is None <==> forall|k: int|
            0 <= k < groups.len() ==> !path::same_path((#[trigger] groups[k]).path@, at),
        0 <= i < groups.len() && path::same_path(groups[i].path@, at) && (forall|k: int|
            i < k < groups.len() ==> !path::same_path((#[trigger] groups[k]).path@, at))
            ==> index_files::names_listed(groups, at) == Some(text::texts(groups[i].names@)),
    decreases groups.len(),
{
    if groups.len() > 0 {
        let last = groups.len() - 1;
        let before = groups.drop_last();
        lemma_last_list(before, at, i);
        if path::same_path(groups[last].path@, at) {
            if 0 <= i < last && (forall|k: int|
                i < k < groups.len() ==> !path::same_path((#[trigger] groups[k]).path@, at)) {
                assert(!path::same_path(groups[last].path@, at));
            }
        } else {
            if forall|k: int|
                0 <= k < before.len() ==> !path::same_path((#[trigger] before[k]).path@, at) {
                assert forall|k: int| 0 <= k < groups.len() implies !path::same_path(
                    (#[trigger] groups[k]).path@,
                    at,
                ) by {
                    if k < last {
                        assert(before[k] == groups[k]);
                    }
                }
            }
            if forall|k: int|
                0 <= k < groups.len() ==> !path::same_path((#[trigger] groups[k]).path@, at) {
                assert forall|k: int| 0 <= k < before.len() implies !path::same_path(
                    (#[trigger] before[k]).path@,
                    at,
                ) by {
                    assert(before[k] == groups[k]);
                }
            }
            if 0 <= i < last && (forall|k: int|
                i < k < groups.len() ==> !path::same_path((#[trigger] groups[k]).path@, at)) {
                assert(before[i] == groups[i]);
                assert forall|k: int| i < k < before.len() implies !path::same_path(
                    (#[trigger] before[k]).path@,
                    at,
                ) by {
                    assert(before[k] == groups[k]);
                }
            }
        }
    }
}

} // verus!
