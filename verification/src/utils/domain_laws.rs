//! Which tensors, buffers and copies the operations on weights take.

use crate::utils::buffer_laws;
use crate::utils::buffer_laws::{covers, fits_buffer};
use crate::utils::convert;
use crate::utils::convert::conversion_is_defined;
use crate::utils::name_map::NameMap;
use crate::utils::run;
use crate::utils::run::Next;
use crate::utils::shards;
use crate::utils::shards::stays_inside;
use crate::utils::tensor;
use crate::utils::tensor::{has_no_elements, is_countable, is_readable};
use crate::utils::tensor_index;
use crate::utils::tensor_index::{Dist, TensorIndex, TensorMeta, TensorShape};
use crate::utils::transfer::{
    copy_is_defined, device_copy_is_defined, first_piece, pieces_of, GpuCopy, RowCopy,
};
use crate::utils::weight_loader::fill_is_defined;
use candle_core::{DType, Tensor};
use vstd::prelude::*;

verus! {

proof fn lemma_positive(dims: Seq<usize>)
    requires
        forall|k: int| 0 <= k < dims.len() ==> #[trigger] dims[k] > 0,
    ensures
        tensor::elem_count(dims) >= 1,
    decreases dims.len(),
{
    if dims.len() > 0 {
        let before = dims.drop_last();
        assert forall|k: int| 0 <= k < before.len() implies #[trigger] before[k] > 0 by {
            assert(dims[k] > 0);
        }
        lemma_positive(before);
        let a = tensor::elem_count(before);
        let b = dims[dims.len() - 1] as nat;
        assert(a * b >= 1) by (nonlinear_arith)
            requires
                a >= 1,
                b >= 1,
        ;
    }
}

/// A tensor with elements can be counted exactly if the number of its elements is a number of the
/// machine and their bytes fit in memory.
pub proof fn law_countable(dims: &[usize], size: usize, r: bool)
    requires
        call_ensures(is_countable, (dims, size), r),
        forall|k: int| 0 <= k < dims@.len() ==> #[trigger] dims@[k] > 0,
    ensures
        r <==> tensor::elem_count(dims@) <= usize::MAX && tensor::elem_count(dims@) * size
            <= isize::MAX,
{
    lemma_countable_positive(dims@, size as nat);
}

proof fn lemma_countable_positive(dims: Seq<usize>, size: nat)
    requires
        forall|k: int| 0 <= k < dims.len() ==> #[trigger] dims[k] > 0,
    ensures
        tensor::countable(dims, size) <==> tensor::elem_count(dims) <= usize::MAX
            && tensor::elem_count(dims) * size <= isize::MAX,
{
    let n = dims.len() as int;
    assert(dims.take(n) =~= dims);
    if tensor::countable(dims, size) {
        assert(tensor::elem_count(dims.take(n)) <= usize::MAX);
    }
    assert forall|k: int| 0 <= k <= n implies tensor::elem_count(#[trigger] dims.take(k))
        <= tensor::elem_count(dims) && tensor::elem_count(dims.skip(k)) <= tensor::elem_count(
        dims,
    ) by {
        let (a, b) = (dims.take(k), dims.skip(k));
        assert(a + b =~= dims);
        tensor::lemma_elem_count_concat(a, b);
        lemma_positive(a);
        lemma_positive(b);
        let (x, y) = (tensor::elem_count(a), tensor::elem_count(b));
        assert(x <= x * y && y <= x * y) by (nonlinear_arith)
            requires
                x >= 1,
                y >= 1,
        ;
    }
    if tensor::elem_count(dims) <= usize::MAX {
        assert forall|k: int| 0 <= k <= n implies tensor::elem_count(#[trigger] dims.skip(k))
            <= usize::MAX by {
            assert(tensor::elem_count(dims.take(k)) <= tensor::elem_count(dims));
        }
    }
}

/// A tensor has no elements exactly if one of its dimensions is zero, and can be read unless it
/// then starts behind the start of its storage.
pub proof fn law_readable(t: Tensor, dims: &[usize], none: bool, r: bool)
    requires
        dims@ == tensor::tensor_dims(t),
        call_ensures(has_no_elements, (dims,), none),
        call_ensures(is_readable, (&t,), r),
    ensures
        none <==> exists|k: int| 0 <= k < dims@.len() && #[trigger] dims@[k] == 0,
        r <==> !none || tensor::tensor_start(t) == 0,
{
}

/// A buffer can be asked for if the index does not hold the tensor, which is then told, or if the
/// type for its buffer is known and the buffer can be counted.
pub proof fn law_can_allocate(ti: TensorIndex, name: &str, dims: &[usize], r: bool)
    requires
        call_ensures(TensorIndex::can_allocate, (&ti, name, dims), r),
    ensures
        !ti.tensors@.contains_key(name@) ==> r,
        ti.tensors@.contains_key(name@) ==> (r <==> exists|d: DType| #[trigger]
            fits_buffer(ti.tensors@[name@], d) && tensor::countable(dims@, tensor::elem_size(d))),
{
    let meta = ti.tensors@[name@];
    buffer_laws::lemma_fits_buffer(meta);
    if r && ti.tensors@.contains_key(name@) {
        let d = tensor_index::buffer_dtype(meta)->0;
        assert(fits_buffer(meta, d) && tensor::countable(dims@, tensor::elem_size(d)));
    }
}

/// Scales can be asked for if the index does not hold both the weight and the scales. Else they
/// have to be countable, and a weight that is split has two dimensions and blocks of two.
pub proof fn law_can_allocate_scale(
    ti: TensorIndex,
    name: &str,
    local: &[usize],
    block: &[usize],
    dist: Dist,
    r: bool,
    rows: usize,
    cols: usize,
)
    requires
        call_ensures(TensorIndex::can_allocate_scale, (&ti, name, local, block, dist), r),
    ensures
        ({
            let (w, s) = (name@ + ".weight"@, name@ + ".weight_scale_inv"@);
            let both = ti.tensors@.contains_key(w) && ti.tensors@.contains_key(s);
            let blocks = block@.len() == 2 && local@.len() >= 2 && block@[0] > 0 && block@[1] > 0;
            &&& !both ==> r
            &&& both && dist == Dist::Replicated ==> match ti.tensors@[s].shape {
                TensorShape::D2(a, b) => r == tensor::countable(seq![a, b], 4),
                TensorShape::D1(_) => r == tensor::countable(local@, 4),
            }
            &&& both && dist != Dist::Replicated && !blocks ==> !r
            &&& both && dist != Dist::Replicated && blocks && local@[0] + block@[0] <= usize::MAX
                && local@[1] + block@[1] <= usize::MAX && covers(local@[0], block@[0], rows)
                && covers(local@[1], block@[1], cols) ==> r == tensor::countable(
                seq![rows, cols],
                4,
            )
        }),
{
    if block@.len() == 2 && local@.len() >= 2 && block@[0] > 0 && block@[1] > 0 && local@[0]
        + block@[0] <= usize::MAX && local@[1] + block@[1] <= usize::MAX && covers(
        local@[0],
        block@[0],
        rows,
    ) && covers(local@[1], block@[1], cols) {
        lemma_covers_unique(local@[0], block@[0], rows);
        lemma_covers_unique(local@[1], block@[1], cols);
    }
}

proof fn lemma_covers_unique(a: usize, b: usize, n: usize)
    requires
        b > 0,
        a + b <= usize::MAX,
        covers(a, b, n),
    ensures
        n == tensor_index::blocks(a, b),
{
    buffer_laws::law_blocks(a, b);
    let m = tensor_index::blocks(a, b);
    if n < m {
        assert((n as int * b) < a);
    }
    if m < n {
        assert((m as int * b) < a);
    }
}

/// Where byte `x` of row `y` of a copy of rows is read.
pub open spec fn read_at(c: RowCopy, y: int, x: int) -> int {
    c.src_offset + y * c.src_pitch + x
}

/// A copy stays inside exactly if every byte that it reads lies inside. One that copies nothing
/// does.
pub proof fn law_stays_inside(c: GpuCopy, len: usize, r: bool)
    requires
        call_ensures(stays_inside, (c, len), r),
    ensures
        match c {
            GpuCopy::Rows(c) => r <==> forall|y: int, x: int|
                0 <= y < c.height && 0 <= x < c.width_bytes ==> #[trigger] read_at(c, y, x) < len,
            GpuCopy::Flat(c) => r <==> c.src_offset + c.byte_count <= len,
        },
{
    if let GpuCopy::Rows(c) = c {
        if c.height > 0 && c.width_bytes > 0 {
            let (y0, x0) = (c.height - 1, c.width_bytes - 1);
            let far = read_at(c, y0, x0);
            if far < len {
                assert forall|y: int, x: int|
                    0 <= y < c.height && 0 <= x < c.width_bytes implies #[trigger] read_at(c, y, x)
                    < len by {
                    assert(y * c.src_pitch <= y0 * c.src_pitch) by (nonlinear_arith)
                        requires
                            y <= y0,
                            c.src_pitch >= 0,
                    ;
                }
            }
        }
    }
}

/// Where a rank's pieces start, if that is a number of the machine, is where they are taken from.
pub proof fn law_first_piece(
    dist: Dist,
    local: usize,
    whole: usize,
    iproc: usize,
    nproc: usize,
    r: Option<usize>,
    taken: (usize, usize),
)
    requires
        nproc > 0,
        call_ensures(first_piece, (dist, local, whole, iproc, nproc), r),
        call_ensures(pieces_of, (dist, local, whole, iproc, nproc), taken),
        iproc * local <= usize::MAX,
        iproc * whole <= usize::MAX,
    ensures
        r == Some(taken.0),
{
    let each = whole as nat / nproc as nat;
    assert(each <= whole) by (nonlinear_arith)
        requires
            each == whole as nat / nproc as nat,
            nproc > 0,
    ;
    assert(iproc * each <= iproc * whole) by (nonlinear_arith)
        requires
            each <= whole,
    ;
}

/// The bytes of a tensor that is not split can be cast exactly if they make up whole elements and
/// the tensor can be counted in either type.
pub proof fn law_replicated_can_be_cast(
    len: usize,
    from: DType,
    to: DType,
    dims: &[usize],
    shape: TensorShape,
    iproc: usize,
    nproc: usize,
    r: bool,
)
    requires
        call_ensures(
            conversion_is_defined,
            (len, from, to, dims, shape, Dist::Replicated, iproc, nproc),
            r,
        ),
    ensures
        r <==> tensor::elem_size(from) > 0 && len as nat % tensor::elem_size(from) == 0
            && tensor::countable(dims@, tensor::elem_size(from)) && tensor::countable(
            dims@,
            tensor::elem_size(to),
        ),
{
}

/// The bytes of a whole tensor can be cast for a rank's equal part of it.
pub proof fn law_equal_part_can_be_cast(
    from: DType,
    to: DType,
    dims: &[usize],
    r: usize,
    c: usize,
    dist: Dist,
    iproc: usize,
    nproc: usize,
    ok: bool,
    len: usize,
)
    requires
        call_ensures(
            conversion_is_defined,
            (len, from, to, dims, TensorShape::D2(r, c), dist, iproc, nproc),
            ok,
        ),
        tensor::computes(from),
        tensor::computes(to),
        iproc < nproc,
        dims@.len() == 2,
        shards::exact_dims(dims@, r, c, dist, nproc as nat),
        dist == Dist::ColumnSharded || dist == Dist::VocabParallel ==> r > 0 && r as nat % nproc as nat
            == 0,
        dist == Dist::RowSharded ==> c > 0 && c as nat % nproc as nat == 0,
        r > 0,
        c > 0,
        r * c * tensor::elem_size(from) <= isize::MAX,
        r * c * tensor::elem_size(to) <= isize::MAX,
        len == r * c * tensor::elem_size(from),
    ensures
        ok,
{
    let (a, b) = (tensor::elem_size(from), tensor::elem_size(to));
    let whole = seq![r, c];
    tensor::lemma_elem_count_small();
    let n = r * c;
    assert(n <= n * a && n * a == r * c * a && n * b == r * c * b) by (nonlinear_arith)
        requires
            n == r * c,
            n >= 0,
            a >= 1,
    ;
    lemma_countable_positive(whole, a);
    lemma_countable_positive(whole, b);
    vstd::arithmetic::div_mod::lemma_mod_multiples_basic(n, a as int);
    assert(dims@ =~= seq![dims@[0], dims@[1]]);
    assert(convert::source_dims(TensorShape::D2(r, c), dist, dims@) =~= (if dist
        == Dist::Replicated {
        dims@
    } else {
        whole
    }));
    if dist == Dist::Replicated {
        assert(dims@ =~= whole);
    } else {
        let axis = convert::split_axis(dist)->0;
        let w = whole[axis] as nat;
        let np = nproc as nat;
        let i = iproc as nat;
        let each = w / np;
        vstd::arithmetic::div_mod::lemma_fundamental_div_mod(w as int, np as int);
        assert(each > 0) by (nonlinear_arith)
            requires
                w == np * each,
                w > 0,
        ;
        assert(i * each + each <= w) by (nonlinear_arith)
            requires
                w == np * each,
                i + 1 <= np,
        ;
    }
}

/// A copy into a buffer for a rank's equal part of a tensor of one dimension can be laid out.
pub proof fn law_flat_buffer_can_be_filled(
    buf: Tensor,
    base: u64,
    meta: TensorMeta,
    n: usize,
    iproc: usize,
    nproc: usize,
    r: bool,
)
    requires
        call_ensures(copy_is_defined, (&buf, Some(base), &meta, iproc, nproc), r),
        meta.shape == TensorShape::D1(n),
        iproc < nproc,
        n as nat % nproc as nat == 0,
        tensor::tensor_dims(buf).len() == 1,
        meta.dist != Dist::Replicated ==> tensor::tensor_dims(buf)[0] == n as nat / nproc as nat,
        meta.dist == Dist::Replicated ==> tensor::tensor_dims(buf)[0] == n,
        tensor::tensor_start(buf) == 0,
        n * tensor::elem_size(tensor::tensor_dtype(buf)) <= isize::MAX,
    ensures
        r,
{
    let elem = tensor::elem_size(tensor::tensor_dtype(buf));
    let np = nproc as nat;
    let i = iproc as nat;
    let each = n as nat / np;
    assert(0 * elem == 0) by (nonlinear_arith);
    vstd::arithmetic::div_mod::lemma_fundamental_div_mod(n as int, np as int);
    assert(i * each <= n && each <= n) by (nonlinear_arith)
        requires
            n == np * each,
            i < np,
    ;
    assert(i * each * elem <= n * elem && each * elem <= n * elem) by (nonlinear_arith)
        requires
            i * each <= n,
            each <= n,
    ;
}

/// A buffer can be filled if it can be copied into, or, where the types differ, if the bytes can
/// be cast for it. Nothing is asked of a copy where there is no buffer on a device.
pub proof fn law_can_fill(
    len: usize,
    buf: Tensor,
    base: Option<u64>,
    src_dtype: DType,
    meta: TensorMeta,
    iproc: usize,
    nproc: usize,
    r: bool,
    copied: bool,
    dims: &[usize],
    cast: bool,
)
    requires
        call_ensures(fill_is_defined, (len, &buf, base, src_dtype, &meta, iproc, nproc), r),
        call_ensures(copy_is_defined, (&buf, base, &meta, iproc, nproc), copied),
        dims@ == tensor::tensor_dims(buf),
        call_ensures(
            conversion_is_defined,
            (
                len,
                src_dtype,
                tensor::tensor_dtype(buf),
                dims,
                meta.shape,
                meta.dist,
                iproc,
                nproc,
            ),
            cast,
        ),
    ensures
        src_dtype == tensor::tensor_dtype(buf) ==> r == copied,
        src_dtype != tensor::tensor_dtype(buf) ==> r == cast,
        base is None ==> copied,
{
}

/// A copy on a device can be laid out if the addresses of both tensors and the size are numbers of
/// the machine.
pub proof fn law_can_copy_on_device(
    src: Tensor,
    dst: Tensor,
    from: u64,
    to: u64,
    r: bool,
)
    requires
        call_ensures(device_copy_is_defined, (&src, &dst, Some(from), Some(to)), r),
        tensor::tensor_start(src) == 0,
        tensor::tensor_start(dst) == 0,
    ensures
        tensor::countable(
            tensor::tensor_dims(src),
            tensor::elem_size(tensor::tensor_dtype(src)),
        ) ==> r,
{
    let (a, b) = (
        tensor::elem_size(tensor::tensor_dtype(src)),
        tensor::elem_size(tensor::tensor_dtype(dst)),
    );
    assert(0 * a == 0 && 0 * b == 0) by (nonlinear_arith);
    if tensor::countable(tensor::tensor_dims(src), a) {
        tensor::lemma_countable_zero(tensor::tensor_dims(src), a);
    }
}

/// Steps are begun with the first, and done without any. Behind a step that was done comes the next
/// one, if there is one, and behind one that failed its error.
pub proof fn law_next_step<E>(
    n: usize,
    i: usize,
    outcome: Result<(), E>,
    first: Next<E>,
    r: Next<E>,
)
    requires
        i < n,
        call_ensures(run::first::<E>, (n,), first),
        call_ensures(run::after::<E>, (n, i, outcome), r),
    ensures
        first is Do && first->Do_0 == 0,
        outcome is Err ==> r is Failed && r->Failed_0 == outcome->Err_0,
        outcome is Ok && i + 1 < n ==> r is Do && r->Do_0 == i + 1,
        outcome is Ok && i + 1 == n ==> r is Done,
{
}

/// A name map gives under a name what was put in last under it, keeps what is under other names,
/// and has each name once, in the order in which names first came.
pub proof fn law_name_map<V>(name: String, value: V, key: &str, got: Option<&V>)
    ensures
        forall|m: &mut NameMap<V>| #[trigger]
            call_ensures(NameMap::<V>::insert, (m, name, value), ()) ==> {
                let (before, after) = (*m, *final(m));
                &&& after@.contains_key(name@) && after@[name@] == value
                &&& forall|k: Seq<char>|
                    k != name@ ==> (after@.contains_key(k) <==> #[trigger] before@.contains_key(k))
                &&& forall|k: Seq<char>|
                    k != name@ && #[trigger] before@.contains_key(k) ==> after@[k] == before@[k]
                &&& before@.contains_key(name@) ==> after.order() == before.order()
                &&& !before@.contains_key(name@) ==> after.order() == before.order().push(name@)
            },
        forall|m: NameMap<V>| #[trigger]
            call_ensures(NameMap::<V>::get, (&m, key), got) ==> {
                &&& got is Some <==> m@.contains_key(key@)
                &&& got is Some ==> *got->0 == m@[key@]
            },
{
}

/// The bytes of a tensor that is split over the vocabulary can be cast for buffers that together
/// have room for more.
pub proof fn law_padded_part_can_be_cast(
    from: DType,
    to: DType,
    dims: &[usize],
    r: usize,
    c: usize,
    iproc: usize,
    nproc: usize,
    ok: bool,
    len: usize,
)
    requires
        call_ensures(
            conversion_is_defined,
            (len, from, to, dims, TensorShape::D2(r, c), Dist::VocabParallel, iproc, nproc),
            ok,
        ),
        tensor::computes(from),
        tensor::computes(to),
        iproc < nproc,
        dims@.len() == 2,
        dims@[1] == c,
        r > 0,
        c > 0,
        r as nat % nproc as nat == 0,
        dims@[0] * nproc >= r,
        r * c * tensor::elem_size(from) <= isize::MAX,
        r * c * tensor::elem_size(to) <= isize::MAX,
        dims@[0] * nproc * (c * tensor::elem_size(to)) <= isize::MAX,
        len == r * c * tensor::elem_size(from),
    ensures
        ok,
{
    let (a, b) = (tensor::elem_size(from), tensor::elem_size(to));
    let whole = seq![r, c];
    let local = dims@[0];
    tensor::lemma_elem_count_small();
    let n = r * c;
    assert(n <= n * a && n * a == r * c * a && n * b == r * c * b) by (nonlinear_arith)
        requires
            n == r * c,
            n >= 0,
            a >= 1,
    ;
    lemma_countable_positive(whole, a);
    lemma_countable_positive(whole, b);
    vstd::arithmetic::div_mod::lemma_mod_multiples_basic(n, a as int);
    assert(convert::source_dims(TensorShape::D2(r, c), Dist::VocabParallel, dims@) =~= whole);
    let np = nproc as nat;
    let i = iproc as nat;
    let each = r as nat / np;
    vstd::arithmetic::div_mod::lemma_fundamental_div_mod(r as int, np as int);
    assert(local > 0 && local >= each) by (nonlinear_arith)
        requires
            local * nproc >= r,
            r == np * each,
            np == nproc,
            r > 0,
    ;
    let all = local * nproc;
    let row = c * b;
    assert(row >= 1) by (nonlinear_arith)
        requires
            row == c * b,
            c >= 1,
            b >= 1,
    ;
    assert(all <= all * row && i * local <= all && local <= all) by (nonlinear_arith)
        requires
            all == local * nproc,
            i < nproc,
            row >= 1,
            local > 0,
    ;
    assert forall|m: usize| 0 < m <= local implies tensor::countable(#[trigger] seq![m, c], b) by {
        lemma_countable_positive(seq![m, c], b);
        assert(m * c * b <= all * row && m * c <= m * c * b) by (nonlinear_arith)
            requires
                0 < m <= all,
                row == c * b,
                c >= 1,
                b >= 1,
        ;
    }
    let start = convert::part_start(Dist::VocabParallel, dims@, whole, i, np);
    let taken = convert::part_len(local as nat, r as nat, start);
    assert(start <= r);
    if taken == 0 {
        assert(convert::fill_dims(dims@, 0, local) =~= seq![local, c]);
    } else if taken < local {
        let rest = (local - taken) as usize;
        assert(convert::fill_dims(dims@, 0, rest) =~= seq![rest, c]);
        assert(whole.update(0, local) =~= seq![local, c]);
    }
}

} // verus!
