//! What holds of the steps by which the ranks fill their buffers.

use crate::utils::error::ShardError;
use crate::utils::index_files;
use crate::utils::tensor_index::{TensorIndex, TensorMeta};
use crate::utils::text;
use crate::utils::weight_loader;
use crate::utils::weight_loader::{
    broadcast_of, load_weights, Broadcast, LoadStep, LoadStepView, PinnedBuffer, Region,
};
use vstd::prelude::*;

verus! {

/// Step `b` fills a buffer that exists, from the bytes of a file that all ranks were sent last.
pub open spec fn filled_from_its_file(
    steps: Seq<LoadStepView>,
    tensors: Map<Seq<char>, TensorMeta>,
    b: int,
) -> bool {
    steps[b] matches LoadStepView::Fill { path, name } ==> {
        &&& tensors.contains_key(name)
        &&& tensors[name].buffer is Some
        &&& exists|a: int|
            0 <= a < b && #[trigger] steps[a] == (LoadStepView::Broadcast { path }) && forall|k: int|
                a < k < b ==> (#[trigger] steps[k] is Fill || steps[k] is Synchronize)
    }
}

proof fn lemma_fills(
    tensors: Map<Seq<char>, TensorMeta>,
    path: Seq<char>,
    names: Seq<Seq<char>>,
    i: int,
)
    requires
        0 <= i < weight_loader::fill_steps(tensors, path, names).len(),
    ensures
        weight_loader::fill_steps(tensors, path, names)[i] matches LoadStepView::Fill {
            path: p,
            name,
        } && p == path && tensors.contains_key(name) && tensors[name].buffer is Some,
    decreases names.len(),
{
    let before = weight_loader::fill_steps(tensors, path, names.drop_last());
    if i < before.len() {
        lemma_fills(tensors, path, names.drop_last(), i);
    }
}

proof fn lemma_file(ti: TensorIndex, is_root: bool, path: Seq<char>, b: int)
    requires
        0 <= b < weight_loader::file_steps(ti, is_root, path).len(),
    ensures
        filled_from_its_file(weight_loader::file_steps(ti, is_root, path), ti.tensors@, b),
{
    let steps = weight_loader::file_steps(ti, is_root, path);
    let fetch = weight_loader::fetch_steps(is_root, path);
    let names = index_files::names_listed(ti.file_tensors@, path)->0;
    let fills = weight_loader::fill_steps(ti.tensors@, path, names);
    let n = fetch.len() as int;
    assert(steps == fetch + fills);
    if b >= n {
        lemma_fills(ti.tensors@, path, names, b - n);
        let a = n - 2;
        assert(steps[a] == (LoadStepView::Broadcast { path }));
        assert forall|k: int| a < k < b implies (#[trigger] steps[k] is Fill
            || steps[k] is Synchronize) by {
            if k >= n {
                lemma_fills(ti.tensors@, path, names, k - n);
            }
        }
    }
}

proof fn lemma_shifted(
    before: Seq<LoadStepView>,
    steps: Seq<LoadStepView>,
    after: Seq<LoadStepView>,
    tensors: Map<Seq<char>, TensorMeta>,
    b: int,
)
    requires
        0 <= b < steps.len(),
        filled_from_its_file(steps, tensors, b),
    ensures
        filled_from_its_file(before + steps + after, tensors, before.len() + b),
{
    let all = before + steps + after;
    let n = before.len() as int;
    assert(all[n + b] == steps[b]);
    if let LoadStepView::Fill { path, name } = steps[b] {
        let a = choose|a: int|
            0 <= a < b && #[trigger] steps[a] == (LoadStepView::Broadcast { path }) && forall|k: int|
                a < k < b ==> (#[trigger] steps[k] is Fill || steps[k] is Synchronize);
        assert(all[n + a] == steps[a]);
        assert forall|k: int| n + a < k < n + b implies (#[trigger] all[k] is Fill
            || all[k] is Synchronize) by {
            assert(all[k] == steps[k - n]);
        }
    }
}

proof fn lemma_files(ti: TensorIndex, is_root: bool, paths: Seq<Seq<char>>, b: int)
    requires
        0 <= b < weight_loader::all_file_steps(ti, is_root, paths).len(),
    ensures
        filled_from_its_file(weight_loader::all_file_steps(ti, is_root, paths), ti.tensors@, b),
    decreases paths.len(),
{
    let before = weight_loader::all_file_steps(ti, is_root, paths.drop_last());
    let last = weight_loader::file_steps(ti, is_root, paths.last());
    let all = weight_loader::all_file_steps(ti, is_root, paths);
    let none = Seq::<LoadStepView>::empty();
    if b < before.len() {
        lemma_files(ti, is_root, paths.drop_last(), b);
        lemma_shifted(none, before, last, ti.tensors@, b);
        assert(none + before + last =~= all);
    } else {
        lemma_file(ti, is_root, paths.last(), b - before.len());
        lemma_shifted(before, last, none, ti.tensors@, b - before.len());
        assert(before + last + none =~= all);
    }
}

/// Whenever a buffer is filled, it exists, and the bytes that every rank was sent last are those
/// of the file that the tensor is listed for.
pub proof fn law_filled_from_its_file(ti: TensorIndex, is_root: bool, b: int)
    requires
        0 <= b < weight_loader::load_steps(ti, is_root).len(),
    ensures
        filled_from_its_file(weight_loader::load_steps(ti, is_root), ti.tensors@, b),
{
    let steps = weight_loader::load_steps(ti, is_root);
    let first = seq![LoadStepView::Allocate { size: ti.max_file_size }];
    let files = weight_loader::all_file_steps(ti, is_root, text::texts(ti.weight_files@));
    let last = seq![LoadStepView::Synchronize];
    assert(steps =~= first + files + last);
    if 1 <= b <= files.len() {
        lemma_files(ti, is_root, text::texts(ti.weight_files@), b - 1);
        lemma_shifted(first, files, last, ti.tensors@, b - 1);
    }
}

proof fn lemma_filled(
    tensors: Map<Seq<char>, TensorMeta>,
    path: Seq<char>,
    names: Seq<Seq<char>>,
    name: Seq<char>,
)
    requires
        names.contains(name),
        tensors.contains_key(name),
        tensors[name].buffer is Some,
    ensures
        weight_loader::fill_steps(tensors, path, names).contains(
            LoadStepView::Fill { path, name },
        ),
    decreases names.len(),
{
    let before = weight_loader::fill_steps(tensors, path, names.drop_last());
    let all = weight_loader::fill_steps(tensors, path, names);
    let step = LoadStepView::Fill { path, name };
    if names.last() == name {
        assert(all[all.len() - 1] == step);
    } else {
        let i = choose|i: int| 0 <= i < names.len() && names[i] == name;
        assert(names.drop_last()[i] == name);
        lemma_filled(tensors, path, names.drop_last(), name);
        let j = choose|j: int| 0 <= j < before.len() && before[j] == step;
        assert(all[j] == step);
    }
}

proof fn lemma_file_loaded(
    ti: TensorIndex,
    is_root: bool,
    paths: Seq<Seq<char>>,
    path: Seq<char>,
    step: LoadStepView,
)
    requires
        paths.contains(path),
        weight_loader::file_steps(ti, is_root, path).contains(step),
    ensures
        weight_loader::all_file_steps(ti, is_root, paths).contains(step),
    decreases paths.len(),
{
    let before = weight_loader::all_file_steps(ti, is_root, paths.drop_last());
    let last = weight_loader::file_steps(ti, is_root, paths.last());
    let all = weight_loader::all_file_steps(ti, is_root, paths);
    if paths.last() == path {
        let j = choose|j: int| 0 <= j < last.len() && last[j] == step;
        assert(all[before.len() + j] == step);
    } else {
        let i = choose|i: int| 0 <= i < paths.len() && paths[i] == path;
        assert(paths.drop_last()[i] == path);
        lemma_file_loaded(ti, is_root, paths.drop_last(), path, step);
        let j = choose|j: int| 0 <= j < before.len() && before[j] == step;
        assert(all[j] == step);
    }
}

/// Every buffer is filled whose tensor is listed for one of the weight files, unless all files
/// are empty.
pub proof fn law_every_buffer_is_filled(
    ti: TensorIndex,
    is_root: bool,
    path: Seq<char>,
    name: Seq<char>,
)
    requires
        ti.max_file_size > 0,
        text::texts(ti.weight_files@).contains(path),
        index_files::names_listed(ti.file_tensors@, path) is Some,
        index_files::names_listed(ti.file_tensors@, path)->0.contains(name),
        ti.tensors@.contains_key(name),
        ti.tensors@[name].buffer is Some,
    ensures
        weight_loader::load_steps(ti, is_root).contains(LoadStepView::Fill { path, name }),
{
    let step = LoadStepView::Fill { path, name };
    let names = index_files::names_listed(ti.file_tensors@, path)->0;
    let fetch = weight_loader::fetch_steps(is_root, path);
    let fills = weight_loader::fill_steps(ti.tensors@, path, names);
    let steps = weight_loader::load_steps(ti, is_root);
    let files = weight_loader::all_file_steps(ti, is_root, text::texts(ti.weight_files@));
    lemma_filled(ti.tensors@, path, names, name);
    let i = choose|i: int| 0 <= i < fills.len() && fills[i] == step;
    assert(names.len() > 0);
    assert(weight_loader::file_steps(ti, is_root, path)[fetch.len() + i] == step);
    lemma_file_loaded(ti, is_root, text::texts(ti.weight_files@), path, step);
    let j = choose|j: int| 0 <= j < files.len() && files[j] == step;
    assert(steps[j + 1] == step);
}

/// A step needs the file that it is about.
pub open spec fn needs_file(s: LoadStepView) -> bool {
    s is Measure || s is Read
}

/// The steps that all ranks take part in.
pub open spec fn shared(steps: Seq<LoadStepView>) -> Seq<LoadStepView> {
    steps.filter(|s: LoadStepView| !needs_file(s))
}

proof fn lemma_shared_fills(
    tensors: Map<Seq<char>, TensorMeta>,
    path: Seq<char>,
    names: Seq<Seq<char>>,
)
    ensures
        shared(weight_loader::fill_steps(tensors, path, names)) == weight_loader::fill_steps(
            tensors,
            path,
            names,
        ),
{
    let steps = weight_loader::fill_steps(tensors, path, names);
    assert forall|i: int| 0 <= i < steps.len() implies !needs_file(#[trigger] steps[i]) by {
        lemma_fills(tensors, path, names, i);
    }
    lemma_all_shared(steps);
}

proof fn lemma_all_shared(steps: Seq<LoadStepView>)
    requires
        forall|i: int| 0 <= i < steps.len() ==> !needs_file(#[trigger] steps[i]),
    ensures
        shared(steps) == steps,
    decreases steps.len(),
{
    reveal(Seq::filter);
    if steps.len() > 0 {
        let before = steps.drop_last();
        assert forall|i: int| 0 <= i < before.len() implies !needs_file(#[trigger] before[i]) by {
            assert(!needs_file(steps[i]));
        }
        lemma_all_shared(before);
        assert(!needs_file(steps[steps.len() - 1]));
        assert(shared(steps) =~= steps);
    }
}

proof fn lemma_shared_add(a: Seq<LoadStepView>, b: Seq<LoadStepView>)
    ensures
        shared(a + b) == shared(a) + shared(b),
{
    Seq::filter_distributes_over_add(a, b, |s: LoadStepView| !needs_file(s));
}

proof fn lemma_shared_fetch(path: Seq<char>)
    ensures
        shared(weight_loader::fetch_steps(true, path)) == weight_loader::fetch_steps(false, path),
{
    let read = seq![LoadStepView::Measure { path }, LoadStepView::Read { path }];
    let rest = seq![LoadStepView::Broadcast { path }, LoadStepView::Synchronize];
    assert(weight_loader::fetch_steps(true, path) =~= read + rest);
    assert(weight_loader::fetch_steps(false, path) =~= rest);
    lemma_shared_add(read, rest);
    lemma_all_shared(rest);
    assert(shared(read) =~= Seq::<LoadStepView>::empty()) by {
        reveal(Seq::filter);
        let first = read.drop_last();
        assert(first.drop_last() =~= Seq::<LoadStepView>::empty());
        assert(shared(first.drop_last()) =~= Seq::<LoadStepView>::empty());
        assert(needs_file(first.last()));
        assert(shared(first) =~= Seq::<LoadStepView>::empty());
        assert(needs_file(read.last()));
    }
}

proof fn lemma_shared_files(ti: TensorIndex, paths: Seq<Seq<char>>)
    ensures
        shared(weight_loader::all_file_steps(ti, true, paths)) == weight_loader::all_file_steps(
            ti,
            false,
            paths,
        ),
    decreases paths.len(),
{
    if paths.len() == 0 {
        lemma_all_shared(weight_loader::all_file_steps(ti, true, paths));
    } else {
        let path = paths.last();
        lemma_shared_files(ti, paths.drop_last());
        lemma_shared_add(
            weight_loader::all_file_steps(ti, true, paths.drop_last()),
            weight_loader::file_steps(ti, true, path),
        );
        match index_files::names_listed(ti.file_tensors@, path) {
            Some(names) => {
                if names.len() > 0 {
                    lemma_shared_add(
                        weight_loader::fetch_steps(true, path),
                        weight_loader::fill_steps(ti.tensors@, path, names),
                    );
                    lemma_shared_fetch(path);
                    lemma_shared_fills(ti.tensors@, path, names);
                } else {
                    lemma_all_shared(weight_loader::file_steps(ti, true, path));
                }
            },
            None => {
                lemma_all_shared(weight_loader::file_steps(ti, true, path));
            },
        }
    }
}

/// The ranks go through the same steps in the same order, but that only the first looks at the
/// files: whatever they have to do together, they do together.
pub proof fn law_ranks_agree(ti: TensorIndex)
    ensures
        shared(weight_loader::load_steps(ti, true)) == weight_loader::load_steps(ti, false),
{
    let steps = weight_loader::load_steps(ti, true);
    if ti.max_file_size == 0 {
        lemma_all_shared(steps);
    } else {
        let first = seq![LoadStepView::Allocate { size: ti.max_file_size }];
        let last = seq![LoadStepView::Synchronize];
        let paths = text::texts(ti.weight_files@);
        let files = weight_loader::all_file_steps(ti, true, paths);
        assert(steps =~= first + files + last);
        assert(weight_loader::load_steps(ti, false) =~= first + weight_loader::all_file_steps(
            ti,
            false,
            paths,
        ) + last);
        lemma_shared_add(first + files, last);
        lemma_shared_add(first, files);
        lemma_all_shared(first);
        lemma_all_shared(last);
        lemma_shared_files(ti, paths);
    }
}

/// A rank other than the first never looks at a file: it has all bytes from what it is sent.
pub proof fn law_only_the_first_rank_needs_files(ti: TensorIndex, b: int)
    requires
        0 <= b < weight_loader::load_steps(ti, false).len(),
    ensures
        !needs_file(weight_loader::load_steps(ti, false)[b]),
{
    let all = weight_loader::load_steps(ti, true);
    let pred = |s: LoadStepView| !needs_file(s);
    law_ranks_agree(ti);
    all.lemma_filter_pred(pred, b);
}

/// A step has its neighbours: a file is measured, read and sent in a row, by the first rank alone
/// but for the sending, and whatever was sent is waited for before anything else is done.
pub open spec fn has_neighbours(steps: Seq<LoadStepView>, is_root: bool, b: int) -> bool {
    match steps[b] {
        LoadStepView::Measure { path } => {
            &&& is_root
            &&& b + 1 < steps.len()
            &&& steps[b + 1] == (LoadStepView::Read { path })
        },
        LoadStepView::Read { path } => {
            &&& is_root
            &&& 0 < b
            &&& b + 1 < steps.len()
            &&& steps[b - 1] == (LoadStepView::Measure { path })
            &&& steps[b + 1] == (LoadStepView::Broadcast { path })
        },
        LoadStepView::Broadcast { path } => {
            &&& b + 1 < steps.len()
            &&& steps[b + 1] is Synchronize
            &&& is_root ==> 0 < b && steps[b - 1] == (LoadStepView::Read { path })
        },
        LoadStepView::Allocate { .. } => false,
        _ => true,
    }
}

/// A buffer is filled only for a name that is listed for the file.
pub open spec fn is_listed(ti: TensorIndex, step: LoadStepView) -> bool {
    step matches LoadStepView::Fill { path, name } ==> (index_files::names_listed(
        ti.file_tensors@,
        path,
    ) matches Some(names) && names.contains(name))
}

proof fn lemma_fill_is_listed(
    tensors: Map<Seq<char>, TensorMeta>,
    path: Seq<char>,
    names: Seq<Seq<char>>,
    i: int,
)
    requires
        0 <= i < weight_loader::fill_steps(tensors, path, names).len(),
    ensures
        names.contains(weight_loader::fill_steps(tensors, path, names)[i]->name),
    decreases names.len(),
{
    let before = weight_loader::fill_steps(tensors, path, names.drop_last());
    if i < before.len() {
        lemma_fill_is_listed(tensors, path, names.drop_last(), i);
        let name = before[i]->name;
        lemma_fills(tensors, path, names.drop_last(), i);
        let k = choose|k: int| 0 <= k < names.drop_last().len() && names.drop_last()[k] == name;
        assert(names[k] == name);
    } else {
        assert(names[names.len() - 1] == names.last());
    }
}

proof fn lemma_file_neighbours(ti: TensorIndex, is_root: bool, path: Seq<char>, b: int)
    requires
        0 <= b < weight_loader::file_steps(ti, is_root, path).len(),
    ensures
        has_neighbours(weight_loader::file_steps(ti, is_root, path), is_root, b),
        is_listed(ti, weight_loader::file_steps(ti, is_root, path)[b]),
{
    let steps = weight_loader::file_steps(ti, is_root, path);
    let fetch = weight_loader::fetch_steps(is_root, path);
    let names = index_files::names_listed(ti.file_tensors@, path)->0;
    let fills = weight_loader::fill_steps(ti.tensors@, path, names);
    assert(steps == fetch + fills);
    if b >= fetch.len() {
        lemma_fills(ti.tensors@, path, names, b - fetch.len());
        lemma_fill_is_listed(ti.tensors@, path, names, b - fetch.len());
    }
}

proof fn lemma_neighbours_shifted(
    before: Seq<LoadStepView>,
    steps: Seq<LoadStepView>,
    after: Seq<LoadStepView>,
    is_root: bool,
    b: int,
)
    requires
        0 <= b < steps.len(),
        has_neighbours(steps, is_root, b),
    ensures
        has_neighbours(before + steps + after, is_root, before.len() + b),
{
    let all = before + steps + after;
    let n = before.len() as int;
    assert(all[n + b] == steps[b]);
    if b + 1 < steps.len() {
        assert(all[n + b + 1] == steps[b + 1]);
    }
    if b > 0 {
        assert(all[n + b - 1] == steps[b - 1]);
    }
}

proof fn lemma_files_neighbours(ti: TensorIndex, is_root: bool, paths: Seq<Seq<char>>, b: int)
    requires
        0 <= b < weight_loader::all_file_steps(ti, is_root, paths).len(),
    ensures
        has_neighbours(weight_loader::all_file_steps(ti, is_root, paths), is_root, b),
        is_listed(ti, weight_loader::all_file_steps(ti, is_root, paths)[b]),
    decreases paths.len(),
{
    let before = weight_loader::all_file_steps(ti, is_root, paths.drop_last());
    let last = weight_loader::file_steps(ti, is_root, paths.last());
    let all = weight_loader::all_file_steps(ti, is_root, paths);
    let none = Seq::<LoadStepView>::empty();
    if b < before.len() {
        lemma_files_neighbours(ti, is_root, paths.drop_last(), b);
        lemma_neighbours_shifted(none, before, last, is_root, b);
        assert(none + before + last =~= all);
    } else {
        lemma_file_neighbours(ti, is_root, paths.last(), b - before.len());
        lemma_neighbours_shifted(before, last, none, is_root, b - before.len());
        assert(before + last + none =~= all);
    }
}

/// Loading starts with memory for the largest file and ends with waiting for the device. In
/// between, files are measured, read and sent in a row, each sending is waited for, and buffers
/// are filled for names that are listed for the file. If all files are empty, nothing is done.
pub proof fn law_load_steps(ti: TensorIndex, iproc: usize, r: Vec<LoadStep>)
    requires
        call_ensures(load_weights, (&ti, iproc), r),
    ensures
        ti.max_file_size == 0 <==> r@.len() == 0,
        ti.max_file_size > 0 ==> {
            let steps = weight_loader::step_views(r@);
            &&& r@.len() >= 2
            &&& r@[0]@ == (LoadStepView::Allocate { size: ti.max_file_size })
            &&& r@.last()@ is Synchronize
            &&& forall|b: int|
                #![trigger steps[b]]
                0 < b < steps.len() ==> has_neighbours(steps, iproc == 0, b) && is_listed(
                    ti,
                    steps[b],
                )
        },
{
    let is_root = iproc == 0;
    let steps = weight_loader::load_steps(ti, is_root);
    assert(weight_loader::step_views(r@).len() == r@.len());
    if ti.max_file_size > 0 {
        let first = seq![LoadStepView::Allocate { size: ti.max_file_size }];
        let files = weight_loader::all_file_steps(ti, is_root, text::texts(ti.weight_files@));
        let last = seq![LoadStepView::Synchronize];
        assert(steps =~= first + files + last);
        assert(weight_loader::step_views(r@)[0] == r@[0]@);
        assert(weight_loader::step_views(r@)[r@.len() - 1] == r@.last()@);
        assert forall|b: int| 0 < b < steps.len() implies has_neighbours(steps, is_root, b)
            && is_listed(ti, #[trigger] steps[b]) by {
            if b <= files.len() {
                lemma_files_neighbours(ti, is_root, text::texts(ti.weight_files@), b - 1);
                lemma_neighbours_shifted(first, files, last, is_root, b - 1);
            }
        }
    }
}

/// The files that steps send, in turn.
pub open spec fn files_sent(steps: Seq<LoadStepView>) -> Seq<Seq<char>> {
    steps.filter(|s: LoadStepView| s is Broadcast).map_values(|s: LoadStepView| s->Broadcast_path)
}

/// The buffers that steps fill, in turn: from which file, and for which name.
pub open spec fn fills_made(steps: Seq<LoadStepView>) -> Seq<(Seq<char>, Seq<char>)> {
    steps.filter(|s: LoadStepView| s is Fill).map_values(
        |s: LoadStepView| (s->Fill_path, s->name),
    )
}

/// Names are listed for a file.
pub open spec fn has_names(ti: TensorIndex, path: Seq<char>) -> bool {
    index_files::names_listed(ti.file_tensors@, path) matches Some(names) && names.len() > 0
}

/// The buffers that there are for the names that are listed for a file, in the order of the names.
pub open spec fn buffers_in(ti: TensorIndex, path: Seq<char>) -> Seq<(Seq<char>, Seq<char>)> {
    match index_files::names_listed(ti.file_tensors@, path) {
        Some(names) => names.filter(
            |n: Seq<char>| ti.tensors@.contains_key(n) && ti.tensors@[n].buffer is Some,
        ).map_values(|n: Seq<char>| (path, n)),
        None => Seq::empty(),
    }
}

proof fn lemma_sent_add(a: Seq<LoadStepView>, b: Seq<LoadStepView>)
    ensures
        files_sent(a + b) == files_sent(a) + files_sent(b),
        fills_made(a + b) == fills_made(a) + fills_made(b),
{
    Seq::filter_distributes_over_add(a, b, |s: LoadStepView| s is Broadcast);
    Seq::filter_distributes_over_add(a, b, |s: LoadStepView| s is Fill);
    assert(files_sent(a + b) =~= files_sent(a) + files_sent(b));
    assert(fills_made(a + b) =~= fills_made(a) + fills_made(b));
}

proof fn lemma_sent_one(s: LoadStepView)
    ensures
        files_sent(seq![s]) == (if s is Broadcast {
            seq![s->Broadcast_path]
        } else {
            Seq::empty()
        }),
        fills_made(seq![s]) == (if s is Fill {
            seq![(s->Fill_path, s->name)]
        } else {
            Seq::empty()
        }),
{
    reveal(Seq::filter);
    let one = seq![s];
    let none = Seq::<LoadStepView>::empty();
    assert(one.drop_last() =~= none);
    assert(none.filter(|s: LoadStepView| s is Broadcast) =~= none);
    assert(none.filter(|s: LoadStepView| s is Fill) =~= none);
    assert(one.last() == s);
    assert(files_sent(one) =~= (if s is Broadcast {
        seq![s->Broadcast_path]
    } else {
        Seq::empty()
    }));
    assert(fills_made(one) =~= (if s is Fill {
        seq![(s->Fill_path, s->name)]
    } else {
        Seq::empty()
    }));
}

proof fn lemma_sent_none()
    ensures
        files_sent(Seq::empty()) == Seq::<Seq<char>>::empty(),
        fills_made(Seq::empty()) == Seq::<(Seq<char>, Seq<char>)>::empty(),
{
    reveal(Seq::filter);
    assert(files_sent(Seq::empty()) =~= Seq::<Seq<char>>::empty());
    assert(fills_made(Seq::empty()) =~= Seq::<(Seq<char>, Seq<char>)>::empty());
}

proof fn lemma_sent_fills(
    tensors: Map<Seq<char>, TensorMeta>,
    path: Seq<char>,
    names: Seq<Seq<char>>,
)
    ensures
        files_sent(weight_loader::fill_steps(tensors, path, names)) == Seq::<Seq<char>>::empty(),
        fills_made(weight_loader::fill_steps(tensors, path, names)) == names.filter(
            |n: Seq<char>| tensors.contains_key(n) && tensors[n].buffer is Some,
        ).map_values(|n: Seq<char>| (path, n)),
    decreases names.len(),
{
    reveal(Seq::filter);
    lemma_sent_none();
    let all = weight_loader::fill_steps(tensors, path, names);
    let keep = |n: Seq<char>| tensors.contains_key(n) && tensors[n].buffer is Some;
    let named = |n: Seq<char>| (path, n);
    if names.len() == 0 {
        assert(names.filter(keep).map_values(named) =~= Seq::empty());
    } else {
        let before = weight_loader::fill_steps(tensors, path, names.drop_last());
        let name = names.last();
        lemma_sent_fills(tensors, path, names.drop_last());
        if keep(name) {
            let step = LoadStepView::Fill { path, name };
            assert(all =~= before + seq![step]);
            lemma_sent_add(before, seq![step]);
            lemma_sent_one(step);
            assert(names.filter(keep) =~= names.drop_last().filter(keep).push(name));
            assert(names.filter(keep).map_values(named) =~= names.drop_last().filter(
                keep,
            ).map_values(named).push((path, name)));
            assert(fills_made(all) =~= names.filter(keep).map_values(named));
        } else {
            assert(names.filter(keep) =~= names.drop_last().filter(keep));
        }
    }
}

proof fn lemma_sent_file(ti: TensorIndex, is_root: bool, path: Seq<char>)
    ensures
        files_sent(weight_loader::file_steps(ti, is_root, path)) == (if has_names(ti, path) {
            seq![path]
        } else {
            Seq::empty()
        }),
        fills_made(weight_loader::file_steps(ti, is_root, path)) == buffers_in(ti, path),
{
    lemma_sent_none();
    let steps = weight_loader::file_steps(ti, is_root, path);
    if has_names(ti, path) {
        let names = index_files::names_listed(ti.file_tensors@, path)->0;
        let fetch = weight_loader::fetch_steps(is_root, path);
        let fills = weight_loader::fill_steps(ti.tensors@, path, names);
        let (m, r, b, w) = (
            LoadStepView::Measure { path },
            LoadStepView::Read { path },
            LoadStepView::Broadcast { path },
            LoadStepView::Synchronize,
        );
        let sent = seq![b] + seq![w];
        let got = seq![m] + seq![r];
        lemma_sent_add(seq![b], seq![w]);
        lemma_sent_add(seq![m], seq![r]);
        lemma_sent_one(m);
        lemma_sent_one(r);
        lemma_sent_one(b);
        lemma_sent_one(w);
        lemma_sent_add(got, sent);
        if is_root {
            assert(fetch =~= got + sent);
        } else {
            assert(fetch =~= sent);
        }
        lemma_sent_add(fetch, fills);
        lemma_sent_fills(ti.tensors@, path, names);
        assert(files_sent(steps) =~= seq![path]);
        assert(fills_made(steps) =~= buffers_in(ti, path));
    } else {
        reveal(Seq::filter);
        assert(steps =~= Seq::empty());
        assert(buffers_in(ti, path) =~= Seq::empty());
    }
}

proof fn lemma_sent_files(ti: TensorIndex, is_root: bool, paths: Seq<Seq<char>>)
    ensures
        files_sent(weight_loader::all_file_steps(ti, is_root, paths)) == paths.filter(
            |p: Seq<char>| has_names(ti, p),
        ),
        fills_made(weight_loader::all_file_steps(ti, is_root, paths)) == paths.map_values(
            |p: Seq<char>| buffers_in(ti, p),
        ).flatten(),
    decreases paths.len(),
{
    reveal(Seq::filter);
    lemma_sent_none();
    let keep = |p: Seq<char>| has_names(ti, p);
    let parts = paths.map_values(|p: Seq<char>| buffers_in(ti, p));
    parts.lemma_flatten_and_flatten_alt_are_equivalent();
    if paths.len() > 0 {
        let before = weight_loader::all_file_steps(ti, is_root, paths.drop_last());
        let last = weight_loader::file_steps(ti, is_root, paths.last());
        let earlier = paths.drop_last().map_values(|p: Seq<char>| buffers_in(ti, p));
        lemma_sent_files(ti, is_root, paths.drop_last());
        lemma_sent_file(ti, is_root, paths.last());
        lemma_sent_add(before, last);
        earlier.lemma_flatten_and_flatten_alt_are_equivalent();
        assert(parts.drop_last() =~= earlier);
        assert(parts.last() == buffers_in(ti, paths.last()));
        assert(files_sent(before) + files_sent(last) =~= paths.filter(keep));
    } else {
        assert(parts.flatten_alt() =~= Seq::empty());
        assert(paths.filter(keep) =~= Seq::empty());
    }
}

/// Every rank is sent each weight file that names are listed for, once and in the order of the
/// files, and fills each buffer that there is for these names, once and in the order of the names.
pub proof fn law_sent_and_filled_in_order(ti: TensorIndex, iproc: usize, r: Vec<LoadStep>)
    requires
        call_ensures(load_weights, (&ti, iproc), r),
        ti.max_file_size > 0,
    ensures
        files_sent(weight_loader::step_views(r@)) == text::texts(ti.weight_files@).filter(
            |p: Seq<char>| has_names(ti, p),
        ),
        fills_made(weight_loader::step_views(r@)) == text::texts(ti.weight_files@).map_values(
            |p: Seq<char>| buffers_in(ti, p),
        ).flatten(),
{
    let is_root = iproc == 0;
    let steps = weight_loader::load_steps(ti, is_root);
    let a = LoadStepView::Allocate { size: ti.max_file_size };
    let first = seq![a];
    let paths = text::texts(ti.weight_files@);
    let files = weight_loader::all_file_steps(ti, is_root, paths);
    let last = seq![LoadStepView::Synchronize];
    assert(steps =~= first + files + last);
    lemma_sent_add(first + files, last);
    lemma_sent_add(first, files);
    lemma_sent_one(a);
    lemma_sent_one(LoadStepView::Synchronize);
    lemma_sent_files(ti, is_root, paths);
    assert(files_sent(steps) =~= files_sent(files));
    assert(fills_made(steps) =~= fills_made(files));
}

/// Page-locked memory: as much is asked for as is wanted, and nothing for an empty buffer. What was
/// granted is what the buffer is made of and what is given back; a refusal is told with the size.
pub proof fn law_pinned_memory(
    size: usize,
    asked: Option<usize>,
    granted: Result<usize, String>,
    r: Result<PinnedBuffer, ShardError>,
    back: Option<usize>,
)
    requires
        call_ensures(PinnedBuffer::request, (size,), asked),
        call_ensures(PinnedBuffer::new, (size, granted), r),
        granted is Ok ==> granted->Ok_0 != 0,
        r is Ok ==> call_ensures(PinnedBuffer::release, (r->Ok_0,), back),
    ensures
        size == 0 ==> asked is None && r is Ok && back is None,
        size > 0 ==> asked == Some(size) && (r is Ok <==> granted is Ok),
        size > 0 && granted is Ok ==> r->Ok_0.capacity == size && back == Some(granted->Ok_0),
        r is Err ==> r->Err_0 is HostAlloc && r->Err_0->size == size && r->Err_0->HostAlloc_code
            == granted->Err_0,
{
}

/// The memory of a buffer is what it was made of, to read and to write, and asking for it changes
/// nothing.
pub proof fn law_memory_of_a_buffer(
    size: usize,
    at: usize,
    b: PinnedBuffer,
    slice: Region,
    ptr: usize,
    to_write: Region,
    ptr_to_write: usize,
)
    requires
        at != 0,
        call_ensures(PinnedBuffer::new, (size, Ok::<usize, String>(at)), Ok(b)),
        call_ensures(PinnedBuffer::as_slice, (&b,), slice),
        call_ensures(PinnedBuffer::as_ptr, (&b,), ptr),
    ensures
        slice.len == size,
        size > 0 ==> slice.ptr == at && ptr == at,
        size == 0 ==> slice.ptr == 0 && ptr == 0,
        forall|m: &mut PinnedBuffer|
            *m == b && #[trigger] call_ensures(PinnedBuffer::as_mut_slice, (m,), to_write)
                ==> to_write == slice && *final(m) == b,
        forall|m: &mut PinnedBuffer|
            *m == b && #[trigger] call_ensures(PinnedBuffer::as_mut_ptr, (m,), ptr_to_write)
                ==> ptr_to_write == ptr && *final(m) == b,
{
}

/// A part of a region has the bytes from its start to its end, and a region holds it exactly if it
/// ends inside.
pub proof fn law_region_part(whole: Region, start: usize, end: usize, holds: bool, part: Region)
    requires
        call_ensures(Region::holds, (&whole, start, end), holds),
        call_ensures(Region::part, (&whole, start, end), part),
    ensures
        holds <==> start <= end && end <= whole.len,
        holds ==> part.ptr - whole.ptr == start && part.len == end - start,
{
}

/// The first rank sends its memory to all, which receive it in theirs. All of it is sent.
pub proof fn law_sending(iproc: usize, size: usize, r: Broadcast)
    ensures
        forall|m: &mut PinnedBuffer| #[trigger]
            call_ensures(broadcast_of, (m, iproc, size), r) ==> {
                &&& *final(m) == *m
                &&& r.recv == m.ptr
                &&& iproc == 0 ==> r.send == m.ptr
                &&& iproc != 0 ==> r.send == 0
                &&& r.count == size
                &&& r.root == 0
            },
{
}

} // verus!
