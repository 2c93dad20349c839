//! Building an index from the weight files of a model, and listing what it holds.

use crate::utils::name_map::NameMap;
use crate::utils::order;
use crate::utils::path;
use crate::utils::path::{join_path, path_key_of, same_key, text_key_of};
use crate::utils::tensor_index::{Dist, FileTensors, TensorIndex, TensorMeta, TensorShape};
use crate::utils::text;
use crate::utils::text::{decimal_of, joined, pad_right};
use vstd::prelude::*;

verus! {

/// One tensor as the header of a weight file declares it. The offsets count from the end of the
/// header.
#[derive(Debug)]
pub struct HeaderEntry {
    pub name: String,
    pub dtype: String,
    pub shape: TensorShape,
    pub data_offsets: (usize, usize),
}

/// The header of a weight file: how many bytes it takes, and the tensors it declares.
#[derive(Debug)]
pub struct FileHeader {
    pub header_size: usize,
    pub entries: Vec<HeaderEntry>,
}

/// The files that tensors are found in, each once, in the order of their first mention. Each
/// item of the weight map is a tensor's name and its file.
pub open spec fn distinct_files(weight_map: Seq<(String, String)>) -> Seq<Seq<char>>
    decreases weight_map.len(),
{
    if weight_map.len() == 0 {
        Seq::empty()
    } else {
        let before = distinct_files(weight_map.drop_last());
        let file = weight_map.last().1@;
        if before.contains(file) {
            before
        } else {
            before.push(file)
        }
    }
}

/// Files as paths seen from a directory.
pub open spec fn joined_paths(dir: Seq<char>, files: Seq<Seq<char>>) -> Seq<Seq<char>> {
    files.map_values(|f: Seq<char>| path::join_spec(dir, f))
}

/// The keys by which paths are ordered.
pub open spec fn path_keys(paths: Seq<Seq<char>>) -> Seq<Seq<u32>> {
    paths.map_values(|p: Seq<char>| path::path_key(p))
}

/// The keys by which names are ordered.
pub open spec fn text_keys(names: Seq<Seq<char>>) -> Seq<Seq<u32>> {
    names.map_values(|n: Seq<char>| path::text_key(n))
}

/// `r` lists the items of `items`, in ascending order of their keys.
pub open spec fn sorted_listing(
    items: Seq<Seq<char>>,
    keys: Seq<Seq<u32>>,
    r: Seq<Seq<char>>,
) -> bool {
    exists|p: Seq<usize>| #[trigger]
        order::permutes(p, items.len()) && order::ascending(keys, p) && r == picked(items, p)
}

/// The items at the given places.
pub open spec fn picked(items: Seq<Seq<char>>, p: Seq<usize>) -> Seq<Seq<char>> {
    p.map_values(|i: usize| items[i as int])
}

/// The names of the tensors that a weight map finds at a path, in its order.
pub open spec fn names_at(
    dir: Seq<char>,
    weight_map: Seq<(String, String)>,
    at: Seq<char>,
) -> Seq<Seq<char>>
    decreases weight_map.len(),
{
    if weight_map.len() == 0 {
        Seq::empty()
    } else {
        let before = names_at(dir, weight_map.drop_last(), at);
        if path::same_path(path::join_spec(dir, weight_map.last().1@), at) {
            before.push(weight_map.last().0@)
        } else {
            before
        }
    }
}

/// The names that are listed for a path, if any list is; of two lists for a path, the last
/// counts.
pub open spec fn names_listed(groups: Seq<FileTensors>, at: Seq<char>) -> Option<Seq<Seq<char>>>
    decreases groups.len(),
{
    if groups.len() == 0 {
        None
    } else if path::same_path(groups.last().path@, at) {
        Some(text::texts(groups.last().names@))
    } else {
        names_listed(groups.drop_last(), at)
    }
}

/// What the index holds of a declared tensor, when its bytes are counted from the start of the
/// file and the bytes of all tensors start at `start`.
pub open spec fn declared(e: HeaderEntry, start: nat) -> TensorMeta {
    TensorMeta {
        src_dtype: e.dtype,
        shape: e.shape,
        data_offsets: ((e.data_offsets.0 + start) as usize, (e.data_offsets.1 + start) as usize),
        dist: Dist::Replicated,
        buffer: None,
        dst_dtype: None,
    }
}

/// The tensors together with those that a header declares; a name declared again takes the
/// place of the earlier one.
pub open spec fn with_entries(
    m: Map<Seq<char>, TensorMeta>,
    entries: Seq<HeaderEntry>,
    start: nat,
) -> Map<Seq<char>, TensorMeta>
    decreases entries.len(),
{
    if entries.len() == 0 {
        m
    } else {
        with_entries(m, entries.drop_last(), start).insert(
            entries.last().name@,
            declared(entries.last(), start),
        )
    }
}

/// Where the bytes of the tensors start in a file: behind the length of the header and the
/// header itself.
pub open spec fn data_start(h: FileHeader) -> nat {
    8 + h.header_size as nat
}

/// The tensors that the headers of all files declare, one file after the other.
pub open spec fn declared_tensors(headers: Seq<FileHeader>) -> Map<Seq<char>, TensorMeta>
    decreases headers.len(),
{
    if headers.len() == 0 {
        Map::empty()
    } else {
        with_entries(
            declared_tensors(headers.drop_last()),
            headers.last().entries@,
            data_start(headers.last()),
        )
    }
}

/// Every offset that a header declares can be counted from the start of the file.
pub open spec fn offsets_fit(h: FileHeader) -> bool {
    &&& data_start(h) <= usize::MAX
    &&& forall|i: int|
        #![trigger h.entries@[i]]
        0 <= i < h.entries@.len() ==> {
            &&& h.entries@[i].data_offsets.0 + data_start(h) <= usize::MAX
            &&& h.entries@[i].data_offsets.1 + data_start(h) <= usize::MAX
        }
}

/// `r` is the largest of the sizes that are known, or zero.
pub open spec fn is_largest(sizes: Seq<Option<usize>>, r: usize) -> bool {
    &&& forall|i: int|
        #![trigger sizes[i]]
        0 <= i < sizes.len() ==> (sizes[i] matches Some(v) ==> v <= r)
    &&& r == 0 || exists|i: int|
        #![trigger sizes[i]]
        0 <= i < sizes.len() && sizes[i] == Some(r)
}

/// Reads the dimensions of a declared shape, which has one or two.
pub fn deserialize_shape(arr: &[usize]) -> (r: TensorShape)
    requires
        arr@.len() == 1 || arr@.len() == 2,
    ensures
        arr@.len() == 1 ==> r == TensorShape::D1(arr@[0]),
        arr@.len() == 2 ==> r == TensorShape::D2(arr@[0], arr@[1]),
{
    if arr.len() == 1 {
        TensorShape::D1(arr[0])
    } else {
        TensorShape::D2(arr[0], arr[1])
    }
}

/// Reads the two offsets of a declared tensor; anything behind them is ignored.
pub fn deserialize_pair(arr: &[usize]) -> (r: (usize, usize))
    requires
        arr@.len() >= 2,
    ensures
        r == (arr@[0], arr@[1]),
{
    (arr[0], arr[1])
}

/// Tests whether every offset that a header declares can be counted from the start of the file.
pub fn header_fits(h: &FileHeader) -> (r: bool)
    ensures
        r == offsets_fit(*h),
{
    if h.header_size > usize::MAX - 8 {
        return false;
    }
    let start: usize = 8 + h.header_size;
    let room: usize = usize::MAX - start;
    let mut i: usize = 0;
    while i < h.entries.len()
        invariant
            i <= h.entries@.len(),
            start == data_start(*h),
            room == usize::MAX - start,
            forall|k: int|
                #![trigger h.entries@[k]]
                0 <= k < i ==> {
                    &&& h.entries@[k].data_offsets.0 + data_start(*h) <= usize::MAX
                    &&& h.entries@[k].data_offsets.1 + data_start(*h) <= usize::MAX
                },
        decreases h.entries@.len() - i,
    {
        let (from, to) = h.entries[i].data_offsets;
        if from > room || to > room {
            return false;
        }
        i = i + 1;
    }
    true
}

fn pick(items: &Vec<String>, p: &Vec<usize>) -> (r: Vec<String>)
    requires
        order::permutes(p@, items@.len()),
    ensures
        text::texts(r@) == picked(text::texts(items@), p@),
{
    let mut r: Vec<String> = Vec::new();
    let mut i: usize = 0;
    while i < p.len()
        invariant
            i <= p@.len(),
            order::permutes(p@, items@.len()),
            r@.len() == i,
            forall|k: int| 0 <= k < i ==> #[trigger] r@[k]@ == items@[p@[k] as int]@,
        decreases p@.len() - i,
    {
        assert(p@[i as int] < items@.len());
        r.push(items[p[i]].clone());
        i = i + 1;
    }
    assert(text::texts(r@) =~= picked(text::texts(items@), p@));
    r
}

/// The paths of all weight files, each file once, in ascending order.
pub fn weight_files(weight_dir: &str, weight_map: &Vec<(String, String)>) -> (r: Vec<String>)
    ensures
        ({
            let paths = joined_paths(weight_dir@, distinct_files(weight_map@));
            sorted_listing(paths, path_keys(paths), text::texts(r@))
        }),
{
    let mut files: NameMap<bool> = NameMap::new();
    let mut i: usize = 0;
    assert(weight_map@.take(0) =~= Seq::<(String, String)>::empty());
    while i < weight_map.len()
        invariant
            i <= weight_map@.len(),
            files.wf(),
            files.order() == distinct_files(weight_map@.take(i as int)),
        decreases weight_map@.len() - i,
    {
        proof {
            files.lemma_order();
            assert(weight_map@.take(i + 1).drop_last() =~= weight_map@.take(i as int));
        }
        files.insert(weight_map[i].1.clone(), true);
        i = i + 1;
    }
    assert(weight_map@.take(i as int) =~= weight_map@);
    let mut paths: Vec<String> = Vec::new();
    let mut keys: Vec<Vec<u32>> = Vec::new();
    let mut k: usize = 0;
    while k < files.len()
        invariant
            k <= files.order().len(),
            paths@.len() == k,
            keys@.len() == k,
            forall|j: int|
                0 <= j < k ==> #[trigger] paths@[j]@ == path::join_spec(
                    weight_dir@,
                    files.order()[j],
                ),
            forall|j: int| 0 <= j < k ==> #[trigger] keys@[j]@ == path::path_key(paths@[j]@),
        decreases files.order().len() - k,
    {
        let file = join_path(weight_dir, files.name_at(k).as_str());
        keys.push(path_key_of(file.as_str()));
        paths.push(file);
        k = k + 1;
    }
    let p = order::sorted_positions(&keys);
    proof {
        let all = joined_paths(weight_dir@, distinct_files(weight_map@));
        assert(text::texts(paths@) =~= all);
        assert(order::keys_of(keys@) =~= path_keys(all));
        assert(order::permutes(p@, all.len()));
    }
    pick(&paths, &p)
}

proof fn lemma_names_listed_none(groups: Seq<FileTensors>, at: Seq<char>)
    requires
        forall|i: int| 0 <= i < groups.len() ==> !path::same_path(#[trigger] groups[i].path@, at),
    ensures
        names_listed(groups, at) is None,
    decreases groups.len(),
{
    if groups.len() > 0 {
        assert(!path::same_path(groups[groups.len() - 1].path@, at));
        lemma_names_listed_none(groups.drop_last(), at);
    }
}

proof fn lemma_names_listed_last(groups: Seq<FileTensors>, at: Seq<char>, i: int)
    requires
        0 <= i < groups.len(),
        path::same_path(groups[i].path@, at),
        forall|k: int| i < k < groups.len() ==> !path::same_path(#[trigger] groups[k].path@, at),
    ensures
        names_listed(groups, at) == Some(text::texts(groups[i].names@)),
    decreases groups.len(),
{
    if i < groups.len() - 1 {
        assert(!path::same_path(groups[groups.len() - 1].path@, at));
        lemma_names_listed_last(groups.drop_last(), at, i);
    }
}

proof fn lemma_names_listed_same(a: Seq<FileTensors>, b: Seq<FileTensors>, at: Seq<char>)
    requires
        a.len() == b.len(),
        forall|k: int|
            #![trigger a[k]]
            #![trigger b[k]]
            0 <= k < a.len() ==> {
                &&& a[k].path@ == b[k].path@
                &&& path::same_path(a[k].path@, at) ==> text::texts(a[k].names@) == text::texts(
                    b[k].names@,
                )
            },
    ensures
        names_listed(a, at) == names_listed(b, at),
    decreases a.len(),
{
    if a.len() > 0 {
        assert(a[a.len() - 1].path@ == b[b.len() - 1].path@);
        lemma_names_listed_same(a.drop_last(), b.drop_last(), at);
    }
}

/// A list of names, where it is not empty.
pub open spec fn unless_empty(names: Seq<Seq<char>>) -> Option<Seq<Seq<char>>> {
    if names.len() == 0 {
        None
    } else {
        Some(names)
    }
}

/// No two lists are for the same path.
pub open spec fn listed_once(groups: Seq<FileTensors>) -> bool {
    forall|i: int, j: int|
        0 <= i < j < groups.len() ==> !path::same_path(
            #[trigger] groups[i].path@,
            #[trigger] groups[j].path@,
        )
}

/// How many names all lists have together.
pub open spec fn total_names(groups: Seq<FileTensors>) -> nat
    decreases groups.len(),
{
    if groups.len() == 0 {
        0
    } else {
        total_names(groups.drop_last()) + groups.last().names@.len()
    }
}

proof fn lemma_total_names_longer(a: Seq<FileTensors>, b: Seq<FileTensors>, g: int)
    requires
        0 <= g < a.len(),
        a.len() == b.len(),
        forall|k: int| 0 <= k < a.len() && k != g ==> #[trigger] b[k] == a[k],
        b[g].names@.len() == a[g].names@.len() + 1,
    ensures
        total_names(b) == total_names(a) + 1,
    decreases a.len(),
{
    if g < a.len() - 1 {
        assert(b[a.len() - 1] == a[a.len() - 1]);
        lemma_total_names_longer(a.drop_last(), b.drop_last(), g);
    } else {
        assert(a.drop_last() =~= b.drop_last());
    }
}

/// Lists for each weight file the names of the tensors that it holds.
pub fn group_by_file(weight_dir: &str, weight_map: &Vec<(String, String)>) -> (r: Vec<FileTensors>)
    ensures
        forall|at: Seq<char>| #[trigger]
            names_listed(r@, at) == unless_empty(names_at(weight_dir@, weight_map@, at)),
        listed_once(r@),
        total_names(r@) == weight_map@.len(),
{
    let mut groups: Vec<FileTensors> = Vec::new();
    let mut keys: Vec<Vec<u32>> = Vec::new();
    let mut i: usize = 0;
    assert(weight_map@.take(0) =~= Seq::<(String, String)>::empty());
    while i < weight_map.len()
        invariant
            i <= weight_map@.len(),
            keys@.len() == groups@.len(),
            forall|k: int|
                0 <= k < groups@.len() ==> #[trigger] keys@[k]@ == path::path_key(groups@[k].path@),
            forall|at: Seq<char>| #[trigger]
                names_listed(groups@, at) == unless_empty(
                    names_at(weight_dir@, weight_map@.take(i as int), at),
                ),
            listed_once(groups@),
            total_names(groups@) == i,
        decreases weight_map@.len() - i,
    {
        let file = join_path(weight_dir, weight_map[i].1.as_str());
        let name = weight_map[i].0.clone();
        let key = path_key_of(file.as_str());
        let mut g: usize = keys.len();
        while g > 0 && !same_key(&keys[g - 1], &key)
            invariant
                g <= keys@.len(),
                forall|k: int| g <= k < keys@.len() ==> #[trigger] keys@[k]@ != key@,
            decreases g,
        {
            g = g - 1;
        }
        let ghost before = groups@;
        let ghost path = file@;
        if g > 0 {
            groups[g - 1].names.push(name);
        } else {
            let mut names: Vec<String> = Vec::new();
            names.push(name);
            groups.push(FileTensors { path: file, names });
            keys.push(key);
        }
        proof {
            if g > 0 {
                assert forall|k: int| 0 <= k < before.len() implies (#[trigger] groups@[k]).path@
                    == before[k].path@ by {}
                lemma_total_names_longer(before, groups@, g - 1);
            } else {
                assert(groups@.drop_last() =~= before);
                assert forall|k: int| 0 <= k < before.len() implies !path::same_path(
                    #[trigger] before[k].path@,
                    path,
                ) by {
                    assert(keys@[k]@ != path::path_key(path));
                }
                assert forall|k: int| 0 <= k < before.len() implies groups@[k] == before[k] by {}
            }
            assert(listed_once(groups@));
            let seen = weight_map@.take(i as int);
            assert(weight_map@.take(i + 1).drop_last() =~= seen);
            assert forall|at: Seq<char>| #[trigger]
                names_listed(groups@, at) == unless_empty(
                    names_at(weight_dir@, weight_map@.take(i + 1), at),
                ) by {
                assert(names_listed(before, at) == unless_empty(
                    names_at(weight_dir@, seen, at),
                ));
                if path::same_path(path, at) {
                    assert forall|k: int| g <= k < before.len() implies !path::same_path(
                        #[trigger] before[k].path@,
                        at,
                    ) by {
                        assert(keys@[k]@ != path::path_key(path));
                    }
                    if g > 0 {
                        assert forall|k: int| g <= k < groups@.len() implies !path::same_path(
                            #[trigger] groups@[k].path@,
                            at,
                        ) by {
                            assert(before[k].path@ == groups@[k].path@);
                        }
                        lemma_names_listed_last(groups@, at, g - 1);
                        lemma_names_listed_last(before, at, g - 1);
                        assert(text::texts(groups@[g - 1].names@) =~= text::texts(
                            before[g - 1].names@,
                        ).push(weight_map@[i as int].0@));
                    } else {
                        lemma_names_listed_none(before, at);
                        assert(text::texts(groups@.last().names@) =~= seq![
                            weight_map@[i as int].0@,
                        ]);
                        assert(names_at(weight_dir@, seen, at) =~= Seq::<Seq<char>>::empty());
                    }
                } else if g > 0 {
                    lemma_names_listed_same(before, groups@, at);
                } else {
                    assert(groups@.drop_last() =~= before);
                }
            }
        }
        i = i + 1;
    }
    assert(weight_map@.take(i as int) =~= weight_map@);
    groups
}

/// The largest of the file sizes that could be told.
pub fn largest_size(sizes: &Vec<Option<usize>>) -> (r: usize)
    ensures
        is_largest(sizes@, r),
{
    let mut r: usize = 0;
    let mut i: usize = 0;
    while i < sizes.len()
        invariant
            i <= sizes@.len(),
            is_largest(sizes@.take(i as int), r),
        decreases sizes@.len() - i,
    {
        let ghost before = r;
        match sizes[i] {
            Some(v) => {
                if v > r {
                    r = v;
                }
            },
            None => {},
        }
        proof {
            let seen = sizes@.take(i as int);
            let next = sizes@.take(i + 1);
            assert(forall|k: int| 0 <= k < i ==> #[trigger] next[k] == seen[k]);
            assert(next[i as int] == sizes@[i as int]);
            if r == before && r != 0 {
                let k = choose|k: int| 0 <= k < seen.len() && #[trigger] seen[k] == Some(r);
                assert(next[k] == Some(r));
            }
        }
        i = i + 1;
    }
    assert(sizes@.take(i as int) =~= sizes@);
    r
}

fn insert_entries(tensors: &mut NameMap<TensorMeta>, header: &FileHeader)
    requires
        old(tensors).wf(),
        offsets_fit(*header),
    ensures
        final(tensors).wf(),
        final(tensors)@ == with_entries(old(tensors)@, header.entries@, data_start(*header)),
{
    let start: usize = 8 + header.header_size;
    let mut i: usize = 0;
    assert(header.entries@.take(0) =~= Seq::<HeaderEntry>::empty());
    while i < header.entries.len()
        invariant
            i <= header.entries@.len(),
            offsets_fit(*header),
            start == data_start(*header),
            tensors.wf(),
            tensors@ == with_entries(old(tensors)@, header.entries@.take(i as int), start as nat),
        decreases header.entries@.len() - i,
    {
        let e = &header.entries[i];
        let meta = TensorMeta {
            src_dtype: e.dtype.clone(),
            shape: e.shape,
            data_offsets: (e.data_offsets.0 + start, e.data_offsets.1 + start),
            dist: Dist::Replicated,
            buffer: None,
            dst_dtype: None,
        };
        assert(meta == declared(header.entries@[i as int], start as nat));
        assert(header.entries@.take(i + 1).drop_last() =~= header.entries@.take(i as int));
        tensors.insert(e.name.clone(), meta);
        i = i + 1;
    }
    assert(header.entries@.take(i as int) =~= header.entries@);
}

/// One line of a listing: a tensor's name, its element type and its dimensions.
pub open spec fn listing_line(name: Seq<char>, meta: TensorMeta) -> Seq<char> {
    let dims = match meta.shape {
        TensorShape::D1(d) => text::decimal(d as nat),
        TensorShape::D2(r, c) => text::decimal(r as nat) + ", "@ + text::decimal(c as nat),
    };
    "  "@ + name + "  "@ + text::padded(meta.src_dtype@, 6) + "  ["@ + dims + "]"@
}

fn write_line(name: &str, meta: &TensorMeta) -> (r: String)
    ensures
        r@ == listing_line(name@, *meta),
{
    let dims = match meta.shape {
        TensorShape::D1(d) => decimal_of(d),
        TensorShape::D2(r, c) => {
            let rows = decimal_of(r);
            let cols = decimal_of(c);
            let start = joined(rows.as_str(), ", ");
            joined(start.as_str(), cols.as_str())
        },
    };
    let dtype = pad_right(meta.src_dtype.as_str(), 6);
    let s = joined("  ", name);
    let s = joined(s.as_str(), "  ");
    let s = joined(s.as_str(), dtype.as_str());
    let s = joined(s.as_str(), "  [");
    let s = joined(s.as_str(), dims.as_str());
    joined(s.as_str(), "]")
}

/// `lines` lists the tensors in ascending order of their names.
pub open spec fn is_listing(ti: TensorIndex, lines: Seq<Seq<char>>) -> bool {
    exists|names: Seq<Seq<char>>| #[trigger]
        sorted_listing(ti.tensors.order(), text_keys(ti.tensors.order()), names) && lines
            == names.map_values(|n: Seq<char>| listing_line(n, ti.tensors@[n]))
}

impl TensorIndex {
    /// Builds the index of a model from what was read in its weight directory.
    ///
    /// `weight_map` has the name of each tensor with the file that holds it, `headers` the headers
    /// of the files in the order of [`weight_files`], and `file_sizes` the sizes of the files that
    /// could be told.
    pub fn new(
        weight_dir: &str,
        weight_map: &Vec<(String, String)>,
        headers: &Vec<FileHeader>,
        file_sizes: &Vec<Option<usize>>,
    ) -> (r: TensorIndex)
        requires
            forall|i: int| 0 <= i < headers@.len() ==> #[trigger] offsets_fit(headers@[i]),
        ensures
            r.wf(),
            r.tensors@ == declared_tensors(headers@),
            ({
                let paths = joined_paths(weight_dir@, distinct_files(weight_map@));
                sorted_listing(paths, path_keys(paths), text::texts(r.weight_files@))
            }),
            forall|at: Seq<char>| #[trigger]
                names_listed(r.file_tensors@, at) == unless_empty(
                    names_at(weight_dir@, weight_map@, at),
                ),
            listed_once(r.file_tensors@),
            total_names(r.file_tensors@) == weight_map@.len(),
            is_largest(file_sizes@, r.max_file_size),
    {
        let mut tensors: NameMap<TensorMeta> = NameMap::new();
        let mut i: usize = 0;
        assert(headers@.take(0) =~= Seq::<FileHeader>::empty());
        while i < headers.len()
            invariant
                i <= headers@.len(),
                forall|k: int| 0 <= k < headers@.len() ==> #[trigger] offsets_fit(headers@[k]),
                tensors.wf(),
                tensors@ == declared_tensors(headers@.take(i as int)),
            decreases headers@.len() - i,
        {
            assert(headers@.take(i + 1).drop_last() =~= headers@.take(i as int));
            insert_entries(&mut tensors, &headers[i]);
            i = i + 1;
        }
        assert(headers@.take(i as int) =~= headers@);
        TensorIndex {
            tensors,
            weight_files: weight_files(weight_dir, weight_map),
            file_tensors: group_by_file(weight_dir, weight_map),
            max_file_size: largest_size(file_sizes),
        }
    }

    /// The names of the tensors that a weight file holds, if the index lists any for it.
    pub fn names_in_file(&self, path: &str) -> (r: Option<&Vec<String>>)
        ensures
            match r {
                Some(names) => names_listed(self.file_tensors@, path@) == Some(
                    text::texts(names@),
                ),
                None => names_listed(self.file_tensors@, path@) is None,
            },
    {
        let key = path_key_of(path);
        let mut i: usize = self.file_tensors.len();
        while i > 0
            invariant
                i <= self.file_tensors@.len(),
                key@ == path::path_key(path@),
                forall|k: int|
                    i <= k < self.file_tensors@.len() ==> !path::same_path(
                        #[trigger] self.file_tensors@[k].path@,
                        path@,
                    ),
            decreases i,
        {
            i = i - 1;
            let other = path_key_of(self.file_tensors[i].path.as_str());
            if same_key(&other, &key) {
                proof {
                    lemma_names_listed_last(self.file_tensors@, path@, i as int);
                }
                return Some(&self.file_tensors[i].names);
            }
        }
        proof {
            lemma_names_listed_none(self.file_tensors@, path@);
        }
        None
    }

    /// Writes a line for each tensor, in ascending order of the names.
    pub fn print_tensors(&self) -> (r: Vec<String>)
        requires
            self.wf(),
        ensures
            is_listing(*self, text::texts(r@)),
    {
        let mut names: Vec<String> = Vec::new();
        let mut keys: Vec<Vec<u32>> = Vec::new();
        let mut i: usize = 0;
        while i < self.tensors.len()
            invariant
                i <= self.tensors.order().len(),
                names@.len() == i,
                keys@.len() == i,
                forall|k: int| 0 <= k < i ==> #[trigger] names@[k]@ == self.tensors.order()[k],
                forall|k: int| 0 <= k < i ==> #[trigger] keys@[k]@ == path::text_key(names@[k]@),
            decreases self.tensors.order().len() - i,
        {
            let name = self.tensors.name_at(i).clone();
            keys.push(text_key_of(name.as_str()));
            names.push(name);
            i = i + 1;
        }
        let p = order::sorted_positions(&keys);
        let sorted = pick(&names, &p);
        let ghost all = self.tensors.order();
        proof {
            assert(text::texts(names@) =~= all);
            assert(order::keys_of(keys@) =~= text_keys(all));
            assert(order::permutes(p@, all.len()));
            assert(sorted_listing(all, text_keys(all), text::texts(sorted@)));
            self.tensors.lemma_order();
        }
        let mut lines: Vec<String> = Vec::new();
        let mut k: usize = 0;
        while k < sorted.len()
            invariant
                k <= sorted@.len(),
                self.wf(),
                all == self.tensors.order(),
                forall|n: Seq<char>| all.contains(n) <==> #[trigger] self.tensors@.contains_key(n),
                order::permutes(p@, all.len()),
                text::texts(sorted@) == picked(all, p@),
                lines@.len() == k,
                forall|j: int|
                    0 <= j < k ==> #[trigger] lines@[j]@ == listing_line(
                        sorted@[j]@,
                        self.tensors@[sorted@[j]@],
                    ),
            decreases sorted@.len() - k,
        {
            proof {
                assert(text::texts(sorted@).len() == sorted@.len());
                assert(text::texts(sorted@)[k as int] == sorted@[k as int]@);
                assert(picked(all, p@)[k as int] == all[p@[k as int] as int]);
                assert(all.contains(sorted@[k as int]@));
            }
            let meta = self.tensors.get(sorted[k].as_str()).unwrap();
            lines.push(write_line(sorted[k].as_str(), meta));
            k = k + 1;
        }
        proof {
            let listed = text::texts(sorted@);
            assert(text::texts(lines@) =~= listed.map_values(
                |n: Seq<char>| listing_line(n, self.tensors@[n]),
            ));
        }
        lines
    }
}

} // verus!
