//! What the parts that ranks copy out of a whole tensor have to do with each other.

use crate::utils::convert;
use crate::utils::tensor;
use crate::utils::tensor_index;
use crate::utils::tensor_index::{Dist, TensorShape};
use crate::utils::transfer;
use crate::utils::transfer::{GpuCopy, Target};
use candle_core::{DType, Device, Tensor};
use vstd::arithmetic::div_mod::{lemma_fundamental_div_mod, lemma_fundamental_div_mod_converse};
use vstd::arithmetic::mul::lemma_mul_is_commutative;
use vstd::prelude::*;

verus! {

/// The bytes that a copy takes out of those of a whole tensor, row by row.
pub open spec fn copied(src: Seq<u8>, c: GpuCopy) -> Seq<u8> {
    match c {
        GpuCopy::Rows(c) => tensor::narrow_bytes(
            src,
            c.height as nat,
            c.src_pitch as nat,
            c.src_offset as nat,
            c.width_bytes as nat,
        ),
        GpuCopy::Flat(c) => src.subrange(
            c.src_offset as int,
            c.src_offset + c.byte_count,
        ),
    }
}

/// A copy reads nothing behind the first `len` bytes.
pub open spec fn reads_inside(c: GpuCopy, len: nat) -> bool {
    match c {
        GpuCopy::Rows(c) => c.height > 0 && c.width_bytes > 0 ==> c.src_offset + (c.height - 1)
            * c.src_pitch + c.width_bytes <= len,
        GpuCopy::Flat(c) => c.src_offset + c.byte_count <= len,
    }
}

/// Tests whether a copy reads nothing behind the first `len` bytes.
pub fn stays_inside(c: GpuCopy, len: usize) -> (r: bool)
    ensures
        r == reads_inside(c, len as nat),
{
    match c {
        GpuCopy::Rows(c) => {
            if c.height == 0 || c.width_bytes == 0 {
                return true;
            }
            match (c.height - 1).checked_mul(c.src_pitch) {
                Some(v) => v <= len && c.src_offset <= len - v && c.width_bytes <= len - v
                    - c.src_offset,
                None => false,
            }
        },
        GpuCopy::Flat(c) => c.src_offset <= len && c.byte_count <= len - c.src_offset,
    }
}

/// The copy that a rank makes into a buffer of two dimensions.
pub open spec fn rows_of(
    t: Target,
    shape: TensorShape,
    dist: Dist,
    iproc: nat,
    nproc: nat,
) -> GpuCopy {
    GpuCopy::Rows(transfer::row_copy(t, shape, dist, iproc, nproc))
}

/// Rows that follow each other without a gap are one run of bytes.
proof fn lemma_rows_without_gap(src: Seq<u8>, height: nat, width: nat, offset: nat)
    requires
        offset + height * width <= src.len(),
    ensures
        tensor::narrow_bytes(src, height, width, offset, width) == src.subrange(
            offset as int,
            (offset + height * width) as int,
        ),
{
    let a = tensor::narrow_bytes(src, height, width, offset, width);
    let b = src.subrange(offset as int, (offset + height * width) as int);
    assert forall|i: int| 0 <= i < height * width implies a[i] == b[i] by {
        if width > 0 {
            lemma_fundamental_div_mod(i, width as int);
            lemma_mul_is_commutative(width as int, i / width as int);
        } else {
            assert(height * width == 0) by (nonlinear_arith)
                requires
                    width == 0,
            ;
        }
    }
    assert(a =~= b);
}

/// Runs of equal length, one after the other, make up what they were taken from.
proof fn lemma_runs(src: Seq<u8>, step: nat, n: nat, parts: Seq<Seq<u8>>)
    requires
        parts.len() == n,
        n * step <= src.len(),
        forall|i: int|
            0 <= i < n ==> #[trigger] parts[i] == src.subrange(i * step, i * step + step),
    ensures
        parts.flatten() == src.take((n * step) as int),
    decreases n,
{
    parts.lemma_flatten_and_flatten_alt_are_equivalent();
    if n == 0 {
        assert(n * step == 0) by (nonlinear_arith)
            requires
                n == 0,
        ;
        assert(parts.flatten_alt() =~= src.take(0));
    } else {
        let m = (n - 1) as nat;
        assert(n * step == m * step + step) by (nonlinear_arith)
            requires
                n == m + 1,
        ;
        lemma_runs(src, step, m, parts.drop_last());
        parts.drop_last().lemma_flatten_and_flatten_alt_are_equivalent();
        assert(parts.last() == src.subrange((m * step) as int, (m * step + step) as int));
        assert(parts.flatten_alt() =~= src.take((n * step) as int));
    }
}

/// A rank takes its equal part of what divides evenly, if it has room for just that.
proof fn lemma_even_pieces(dist: Dist, local: nat, whole: nat, i: nat, nproc: nat)
    requires
        nproc > 0,
        whole % nproc == 0,
        local == whole / nproc,
        i < nproc,
    ensures
        transfer::first_of(dist, local, whole, i, nproc) == i * local,
        transfer::taken_of(dist, local, whole, i * local) == local,
        i * local + local <= whole,
{
    lemma_fundamental_div_mod(whole as int, nproc as int);
    assert(i * local + local <= whole) by (nonlinear_arith)
        requires
            whole == nproc * local,
            i + 1 <= nproc,
    ;
}

/// The numbers behind a split along the rows.
proof fn lemma_row_blocks(r: nat, c: nat, e: nat, nproc: nat, h: nat, i: nat)
    requires
        nproc > 0,
        r % nproc == 0,
        h == r / nproc,
        i < nproc,
    ensures
        nproc * (h * (c * e)) == r * c * e,
        i * h * c * e == i * (h * (c * e)),
        i * (h * (c * e)) + h * (c * e) <= r * c * e,
{
    lemma_fundamental_div_mod(r as int, nproc as int);
    let step = h * (c * e);
    assert(nproc * (h * (c * e)) == (nproc * h) * c * e) by (nonlinear_arith);
    assert(i * h * c * e == i * (h * (c * e))) by (nonlinear_arith);
    assert(i * step + step <= nproc * step) by (nonlinear_arith)
        requires
            i + 1 <= nproc,
    ;
}

/// Where the rows of a tensor are split, each rank copies one run of rows: its own block of the
/// whole. It reads nothing outside the tensor.
pub proof fn law_row_block(
    t: Target,
    r: usize,
    c: usize,
    dist: Dist,
    iproc: nat,
    nproc: nat,
    src: Seq<u8>,
)
    requires
        dist == Dist::ColumnSharded || dist == Dist::VocabParallel,
        transfer::copy_defined(t, TensorShape::D2(r, c), dist, iproc, nproc),
        t.dims.len() == 2,
        t.dims[0] == r as nat / nproc,
        t.dims[1] == c,
        iproc < nproc,
        src.len() == r * c * t.elem,
    ensures
        ({
            let copy = rows_of(t, TensorShape::D2(r, c), dist, iproc, nproc);
            let block = (r as nat / nproc) * c * t.elem;
            &&& reads_inside(copy, src.len())
            &&& copied(src, copy) == src.subrange(iproc * block, iproc * block + block)
        }),
{
    let h = r as nat / nproc;
    let p = c as nat * t.elem;
    lemma_row_blocks(r as nat, c as nat, t.elem, nproc, h, iproc);
    let step = h * p;
    assert(h * c * t.elem == step) by (nonlinear_arith)
        requires
            p == c as nat * t.elem,
            step == h * p,
    ;
    let copy = transfer::row_copy(t, TensorShape::D2(r, c), dist, iproc, nproc);
    lemma_even_pieces(dist, h, r as nat, iproc, nproc);
    assert(copy.src_offset == iproc * step);
    assert(copy.width_bytes == p && copy.src_pitch == p && copy.height == h);
    assert(h > 0 ==> (h - 1) * p + p == h * p) by (nonlinear_arith);
    lemma_rows_without_gap(src, h, p, iproc * step);
}

/// Where the rows of a tensor are split, the parts of all ranks, one after the other, are the
/// whole tensor.
pub proof fn law_row_blocks_make_up_the_whole(
    ts: Seq<Target>,
    r: usize,
    c: usize,
    dist: Dist,
    elem: nat,
    src: Seq<u8>,
)
    requires
        dist == Dist::ColumnSharded || dist == Dist::VocabParallel,
        ts.len() > 0,
        src.len() == r * c * elem,
        forall|i: int|
            #![trigger ts[i]]
            0 <= i < ts.len() ==> {
                &&& transfer::copy_defined(
                    ts[i],
                    TensorShape::D2(r, c),
                    dist,
                    i as nat,
                    ts.len(),
                )
                &&& ts[i].elem == elem
                &&& ts[i].dims.len() == 2
                &&& ts[i].dims[0] == r as nat / ts.len()
                &&& ts[i].dims[1] == c
            },
    ensures
        Seq::new(
            ts.len(),
            |i: int| copied(src, rows_of(ts[i], TensorShape::D2(r, c), dist, i as nat, ts.len())),
        ).flatten() == src,
{
    let n = ts.len();
    let parts = Seq::new(
        n,
        |i: int| copied(src, rows_of(ts[i], TensorShape::D2(r, c), dist, i as nat, n)),
    );
    let block = ((r as nat / n) * c * elem) as nat;
    assert(transfer::copy_defined(ts[0], TensorShape::D2(r, c), dist, 0, n));
    assert(n * block == src.len()) by {
        let h = r as nat / n;
        lemma_row_blocks(r as nat, c as nat, elem, n, h, 0);
        assert(n * (h * (c as nat * elem)) == n * (h * c * elem)) by (nonlinear_arith);
    }
    assert forall|i: int| 0 <= i < n implies #[trigger] parts[i] == src.subrange(
        i * block,
        i * block + block,
    ) by {
        law_row_block(ts[i], r, c, dist, i as nat, n, src);
    }
    lemma_runs(src, block, n, parts);
    assert(src.take(src.len() as int) =~= src);
}

/// Where the columns of a tensor are split, byte `x` of row `y` of the whole is found on one
/// rank, in the same row of its part. No rank reads anything outside the tensor.
pub proof fn law_column_block(
    t: Target,
    r: usize,
    c: usize,
    iproc: nat,
    nproc: nat,
    src: Seq<u8>,
    y: int,
    x: int,
)
    requires
        transfer::copy_defined(t, TensorShape::D2(r, c), Dist::RowSharded, iproc, nproc),
        t.dims.len() == 2,
        t.dims[0] == r,
        t.dims[1] == c as nat / nproc,
        src.len() == r * c * t.elem,
        0 <= y < r,
        0 <= x < c * t.elem,
        iproc == x / (t.dims[1] * t.elem),
    ensures
        ({
            let copy = rows_of(t, TensorShape::D2(r, c), Dist::RowSharded, iproc, nproc);
            let width = t.dims[1] * t.elem;
            &&& iproc < nproc
            &&& reads_inside(copy, src.len())
            &&& copied(src, copy).len() == r * width
            &&& copied(src, copy)[y * width + x % width] == src[y * (c * t.elem) + x]
        }),
{
    let each = c as nat / nproc;
    let e = t.elem;
    let w = each * e;
    let p = c as nat * e;
    lemma_fundamental_div_mod(c as int, nproc as int);
    assert(nproc * w == p) by (nonlinear_arith)
        requires
            c == nproc * each,
            w == each * e,
            p == c as nat * e,
    ;
    if w == 0 {
        assert(p == 0) by (nonlinear_arith)
            requires
                nproc * w == p,
                w == 0,
        ;
    }
    lemma_fundamental_div_mod(x, w as int);
    assert(iproc < nproc) by (nonlinear_arith)
        requires
            w > 0,
            x == w * iproc + x % w as int,
            x % w as int >= 0,
            x < p,
            p == nproc * w,
    ;
    let copy = transfer::row_copy(t, TensorShape::D2(r, c), Dist::RowSharded, iproc, nproc);
    assert(iproc * each * e == iproc * w) by (nonlinear_arith)
        requires
            w == each * e,
    ;
    assert(copy.src_offset == iproc * w);
    assert(copy.src_pitch == p && copy.width_bytes == w && copy.height == r);
    assert(iproc * w + (r - 1) * p + w <= r * p) by (nonlinear_arith)
        requires
            iproc + 1 <= nproc,
            nproc * w == p,
            r > 0,
    ;
    assert(r * p == r * c * e) by (nonlinear_arith)
        requires
            p == c as nat * e,
    ;
    let m = x % w as int;
    let i = y * w + m;
    assert(0 <= i < r * w) by (nonlinear_arith)
        requires
            0 <= m < w,
            0 <= y < r,
            i == y * w + m,
    ;
    lemma_fundamental_div_mod_converse(i, w as int, y, m);
    lemma_mul_is_commutative(w as int, iproc as int);
    assert(tensor::narrow_at(p, iproc * w, w, i) == y * p + x);
}

/// Every rank copies the whole of a tensor that is not split.
pub proof fn law_replicated(t: Target, r: usize, c: usize, iproc: nat, nproc: nat, src: Seq<u8>)
    requires
        transfer::copy_defined(t, TensorShape::D2(r, c), Dist::Replicated, iproc, nproc),
        t.dims.len() == 2,
        t.dims[0] == r,
        t.dims[1] == c,
        src.len() == r * c * t.elem,
    ensures
        ({
            let copy = rows_of(t, TensorShape::D2(r, c), Dist::Replicated, iproc, nproc);
            reads_inside(copy, src.len()) && copied(src, copy) == src
        }),
{
    let p = c as nat * t.elem;
    assert(r * p == r * c * t.elem) by (nonlinear_arith)
        requires
            p == c as nat * t.elem,
    ;
    assert(r > 0 ==> (r - 1) * p + p == r * p) by (nonlinear_arith);
    lemma_rows_without_gap(src, r as nat, p, 0);
    assert(src.subrange(0, src.len() as int) =~= src);
}

/// A rank copies its own run of elements of a tensor of one dimension, or all of them if the
/// tensor is not split. It reads nothing outside the tensor.
pub proof fn law_flat_block(
    t: Target,
    shape: TensorShape,
    dist: Dist,
    iproc: nat,
    nproc: nat,
    src: Seq<u8>,
)
    requires
        transfer::copy_defined(t, shape, dist, iproc, nproc),
        t.dims.len() == 1,
        iproc < nproc,
        ({
            let whole = if dist == Dist::Replicated {
                t.dims[0] as nat
            } else {
                transfer::global_count(shape, t.dims[0] as nat, nproc)
            };
            &&& src.len() == whole * t.elem
            &&& dist != Dist::Replicated ==> t.dims[0] == whole / nproc
        }),
    ensures
        ({
            let copy = GpuCopy::Flat(transfer::flat_copy(t, shape, dist, iproc, nproc));
            let block = t.dims[0] * t.elem;
            &&& reads_inside(copy, src.len())
            &&& dist == Dist::Replicated ==> copied(src, copy) == src
            &&& dist != Dist::Replicated ==> copied(src, copy) == src.subrange(
                iproc * block,
                iproc * block + block,
            )
        }),
{
    let copy = transfer::flat_copy(t, shape, dist, iproc, nproc);
    if dist == Dist::Replicated {
        assert(src.subrange(0, src.len() as int) =~= src);
    } else {
        let each = t.dims[0] as nat;
        let whole = transfer::global_count(shape, each, nproc);
        lemma_even_pieces(dist, each, whole, iproc, nproc);
        lemma_fundamental_div_mod(whole as int, nproc as int);
        assert(iproc * each * t.elem == iproc * (each * t.elem)) by (nonlinear_arith);
        assert(iproc * (each * t.elem) + each * t.elem <= whole * t.elem) by (nonlinear_arith)
            requires
                whole == nproc * each,
                iproc + 1 <= nproc,
        ;
    }
}

/// The runs that all ranks copy out of a split tensor of one dimension, one after the other, are
/// the whole tensor.
pub proof fn law_flat_blocks_make_up_the_whole(
    ts: Seq<Target>,
    n: usize,
    dist: Dist,
    elem: nat,
    src: Seq<u8>,
)
    requires
        dist != Dist::Replicated,
        ts.len() > 0,
        src.len() == n * elem,
        forall|i: int|
            #![trigger ts[i]]
            0 <= i < ts.len() ==> {
                &&& transfer::copy_defined(ts[i], TensorShape::D1(n), dist, i as nat, ts.len())
                &&& ts[i].elem == elem
                &&& ts[i].dims.len() == 1
                &&& ts[i].dims[0] == n as nat / ts.len()
            },
    ensures
        Seq::new(
            ts.len(),
            |i: int|
                copied(
                    src,
                    GpuCopy::Flat(
                        transfer::flat_copy(ts[i], TensorShape::D1(n), dist, i as nat, ts.len()),
                    ),
                ),
        ).flatten() == src,
{
    let k = ts.len();
    let parts = Seq::new(
        k,
        |i: int|
            copied(
                src,
                GpuCopy::Flat(transfer::flat_copy(ts[i], TensorShape::D1(n), dist, i as nat, k)),
            ),
    );
    let each = n as nat / k;
    let block = each * elem;
    assert(transfer::copy_defined(ts[0], TensorShape::D1(n), dist, 0, k));
    lemma_fundamental_div_mod(n as int, k as int);
    assert(k * block == n * elem) by (nonlinear_arith)
        requires
            n == k * each,
            block == each * elem,
    ;
    assert forall|i: int| 0 <= i < k implies #[trigger] parts[i] == src.subrange(
        i * block,
        i * block + block,
    ) by {
        law_flat_block(ts[i], TensorShape::D1(n), dist, i as nat, k, src);
    }
    lemma_runs(src, block, k, parts);
    assert(src.take(src.len() as int) =~= src);
}

/// A buffer gets the same elements of the whole tensor whether they are copied as they are or
/// taken out of a cast.
pub proof fn law_cast_and_copy_agree(
    t: Target,
    r: usize,
    c: usize,
    dist: Dist,
    iproc: nat,
    nproc: nat,
    full: Seq<u8>,
)
    requires
        transfer::copy_defined(t, TensorShape::D2(r, c), dist, iproc, nproc),
        iproc < nproc,
        full.len() == r * c * t.elem,
        t.dims.len() == 2,
        match dist {
            Dist::ColumnSharded | Dist::VocabParallel => t.dims[0] == r as nat / nproc
                && t.dims[1] == c,
            Dist::RowSharded => t.dims[0] == r && t.dims[1] == c as nat / nproc,
            Dist::Replicated => t.dims[0] == r && t.dims[1] == c,
        },
    ensures
        convert::converted_bytes(full, t.elem, t.dims, TensorShape::D2(r, c), dist, iproc, nproc)
            == copied(full, rows_of(t, TensorShape::D2(r, c), dist, iproc, nproc)),
{
    tensor::lemma_elem_count_small();
    let whole = seq![r, c];
    let e = t.elem;
    let taken = convert::converted_bytes(
        full,
        e,
        t.dims,
        TensorShape::D2(r, c),
        dist,
        iproc,
        nproc,
    );
    assert(tensor::elem_count(Seq::<usize>::empty()) == 1);
    match dist {
        Dist::Replicated => {
            law_replicated(t, r, c, iproc, nproc, full);
        },
        Dist::ColumnSharded | Dist::VocabParallel => {
            let h = r as nat / nproc;
            let p = c as nat * e;
            law_row_block(t, r, c, dist, iproc, nproc, full);
            lemma_even_pieces(dist, h, r as nat, iproc, nproc);
            lemma_row_blocks(r as nat, c as nat, e, nproc, h, iproc);
            lemma_fundamental_div_mod(r as int, nproc as int);
            assert(iproc * h + h <= r) by (nonlinear_arith)
                requires
                    r == nproc * h,
                    iproc + 1 <= nproc,
            ;
            assert(whole.skip(1) =~= seq![c]);
            assert(whole.take(0) =~= Seq::<usize>::empty());
            assert(tensor::step_bytes(whole, e, 0) == p);
            let block = h * p;
            assert(h * c * e == block) by (nonlinear_arith)
                requires
                    p == c as nat * e,
                    block == h * p,
            ;
            assert((iproc * h) * p == iproc * block) by (nonlinear_arith)
                requires
                    block == h * p,
            ;
            if h == 0 {
                assert(t.dims =~= seq![0usize, c]);
                assert(block == 0) by (nonlinear_arith)
                    requires
                        block == h * p,
                        h == 0,
                ;
                assert(tensor::elem_count(seq![0usize, c]) * e == 0) by (nonlinear_arith)
                    requires
                        tensor::elem_count(seq![0usize, c]) == 0usize * c,
                ;
                assert(taken =~= Seq::<u8>::empty());
                assert(full.subrange((iproc * block) as int, (iproc * block + block) as int) =~= Seq::<
                    u8,
                >::empty());
            } else {
                let kept = tensor::narrow_bytes(
                    full,
                    1,
                    (r * p) as nat,
                    (iproc * h) * p,
                    block,
                );
                assert(1 * block == block) by (nonlinear_arith);
                assert forall|i: int| 0 <= i < block implies kept[i] == full[iproc * block + i] by {
                    lemma_fundamental_div_mod_converse(i, block as int, 0, i);
                    assert(0 * (r * p) == 0) by (nonlinear_arith);
                }
                assert(kept =~= full.subrange((iproc * block) as int, (iproc * block + block) as int));
            }
        },
        Dist::RowSharded => {
            let each = c as nat / nproc;
            lemma_fundamental_div_mod(c as int, nproc as int);
            assert(iproc * each + each <= c) by (nonlinear_arith)
                requires
                    c == nproc * each,
                    iproc + 1 <= nproc,
            ;
            assert(whole.skip(2) =~= Seq::<usize>::empty());
            assert(whole.take(1) =~= seq![r]);
            assert(tensor::step_bytes(whole, e, 1) == e) by {
                assert(1 * e == e) by (nonlinear_arith);
            }
            if each == 0 {
                assert(t.dims =~= seq![r, 0usize]);
                assert(tensor::elem_count(seq![r, 0usize]) * e == 0) by (nonlinear_arith)
                    requires
                        tensor::elem_count(seq![r, 0usize]) == r * 0usize,
                ;
                let none = tensor::narrow_bytes(full, r as nat, c as nat * e, 0, 0);
                assert(taken =~= Seq::<u8>::empty());
                assert(each * e == 0 && iproc * each * e == 0) by (nonlinear_arith)
                    requires
                        each == 0,
                ;
                assert(r * 0nat == 0) by (nonlinear_arith);
                assert(none =~= Seq::<u8>::empty());
            }
        },
    }
}

/// The dimensions of a rank's buffer for a tensor of `r` rows and `c` columns.
pub open spec fn local_dims(r: usize, c: usize, dist: Dist, nproc: usize) -> Seq<usize> {
    match dist {
        Dist::ColumnSharded | Dist::VocabParallel => seq![r / nproc, c],
        Dist::RowSharded => seq![r, c / nproc],
        Dist::Replicated => seq![r, c],
    }
}

/// A buffer that was allocated for a rank can be filled: the copy into it can be laid out, and
/// writes the buffer from its start to its end without a gap.
pub proof fn law_allocated_buffer_can_be_filled(
    t: Tensor,
    base: u64,
    r: usize,
    c: usize,
    dtype: DType,
    dist: Dist,
    iproc: usize,
    nproc: usize,
    device: Device,
)
    requires
        nproc > 0,
        iproc < nproc,
        match dist {
            Dist::ColumnSharded | Dist::VocabParallel => r % nproc == 0,
            Dist::RowSharded => c % nproc == 0,
            Dist::Replicated => true,
        },
        tensor_index::has_name(dtype),
        tensor_index::is_zeros(t, local_dims(r, c, dist, nproc), dtype, device),
        r * c * tensor::elem_size(dtype) <= isize::MAX,
        r > 0,
    ensures
        ({
            let target = transfer::target_of(t, base);
            let copy = transfer::row_copy(
                target,
                TensorShape::D2(r, c),
                dist,
                iproc as nat,
                nproc as nat,
            );
            &&& transfer::copy_defined(
                target,
                TensorShape::D2(r, c),
                dist,
                iproc as nat,
                nproc as nat,
            )
            &&& copy.dst == base
            &&& copy.dst_pitch == copy.width_bytes
            &&& copy.height * copy.width_bytes == tensor::elem_count(target.dims) * target.elem
        }),
{
    let e = tensor::elem_size(dtype);
    let dims = local_dims(r, c, dist, nproc);
    let target = transfer::target_of(t, base);
    tensor::lemma_elem_count_small();
    assert(dims.skip(1) =~= seq![dims[1]]);
    assert(dims =~= seq![dims[0], dims[1]]);
    assert(tensor::tensor_stride(t)[0] == dims[1]);
    assert(0 * e == 0) by (nonlinear_arith);
    let h = dims[0] as int;
    let w = dims[1] * e;
    assert(h * w == h * dims[1] * e) by (nonlinear_arith)
        requires
            w == dims[1] * e,
    ;
    lemma_exact_copy_defined(target, r, c, dist, iproc as nat, nproc as nat);
    if dist == Dist::VocabParallel {
        lemma_even_pieces(dist, h as nat, r as nat, iproc as nat, nproc as nat);
    }
}

/// The copy into a buffer for a rank's equal part, with a storage of its own, can be laid out.
proof fn lemma_exact_copy_defined(
    t: Target,
    r: usize,
    c: usize,
    dist: Dist,
    iproc: nat,
    nproc: nat,
)
    requires
        iproc < nproc,
        match dist {
            Dist::ColumnSharded | Dist::VocabParallel => r as nat % nproc == 0,
            Dist::RowSharded => c as nat % nproc == 0,
            Dist::Replicated => true,
        },
        t.dims.len() == 2,
        exact_dims(t.dims, r, c, dist, nproc),
        t.stride.len() > 0,
        t.stride[0] == t.dims[1],
        t.start == 0,
        t.base <= u64::MAX,
        t.elem >= 1,
        r * c * t.elem <= isize::MAX,
        r > 0,
    ensures
        transfer::copy_defined(t, TensorShape::D2(r, c), dist, iproc, nproc),
{
    let e = t.elem;
    assert(0 * e == 0) by (nonlinear_arith);
    let p = c * e;
    assert(r * c * e == r * p) by (nonlinear_arith)
        requires
            p == c * e,
    ;
    assert(p >= 0) by (nonlinear_arith)
        requires
            p == c * e,
    ;
    assert(p <= r * p) by (nonlinear_arith)
        requires
            r >= 1,
            p >= 0,
    ;
    let h = t.dims[0] as int;
    let i = iproc as int;
    match dist {
        Dist::ColumnSharded | Dist::VocabParallel => {
            lemma_row_blocks(r as nat, c as nat, e, nproc, h as nat, iproc);
            lemma_even_pieces(dist, h as nat, r as nat, iproc, nproc);
            let m = i * h * c;
            assert(0 <= m) by (nonlinear_arith)
                requires
                    m == i * h * c,
                    0 <= i,
                    0 <= h,
                    0 <= c,
            ;
            assert(m <= m * e) by (nonlinear_arith)
                requires
                    0 <= m,
                    e >= 1,
            ;
            assert(m * e == i * (h * (c as nat * e)));
            assert(h * (c as nat * e) >= 0) by (nonlinear_arith)
                requires
                    h >= 0,
            ;
            assert(m * e <= isize::MAX);
        },
        Dist::RowSharded => {
            let each = c as nat / nproc;
            lemma_fundamental_div_mod(c as int, nproc as int);
            assert(0 <= i * each <= c) by (nonlinear_arith)
                requires
                    c == nproc * each,
                    0 <= i < nproc,
            ;
            assert(i * each * e <= c * e && each * e <= c * e) by (nonlinear_arith)
                requires
                    0 <= i * each <= c,
                    c == nproc * each,
                    nproc >= 1,
            ;
        },
        Dist::Replicated => {},
    }
}

/// A buffer that was allocated for a rank's rows of a tensor that is split over the vocabulary can
/// be filled: the copy into it can be laid out, and writes from its start without a gap, no more
/// than it has room for.
pub proof fn law_vocab_buffer_can_be_filled(
    t: Tensor,
    base: u64,
    local: usize,
    r: usize,
    c: usize,
    dtype: DType,
    iproc: usize,
    nproc: usize,
    device: Device,
)
    requires
        iproc < nproc,
        r % nproc == 0,
        local > 0,
        c > 0,
        tensor_index::has_name(dtype),
        tensor_index::is_zeros(t, seq![local, c], dtype, device),
        nproc * local * (c * tensor::elem_size(dtype)) <= isize::MAX,
        r * (c * tensor::elem_size(dtype)) <= isize::MAX,
    ensures
        ({
            let target = transfer::target_of(t, base);
            let shape = TensorShape::D2(r, c);
            let copy = transfer::row_copy(
                target,
                shape,
                Dist::VocabParallel,
                iproc as nat,
                nproc as nat,
            );
            &&& transfer::copy_defined(
                target,
                shape,
                Dist::VocabParallel,
                iproc as nat,
                nproc as nat,
            )
            &&& copy.dst == base
            &&& copy.dst_pitch == copy.width_bytes
            &&& copy.height <= local
        }),
{
    let e = tensor::elem_size(dtype);
    let dims = seq![local, c];
    tensor::lemma_elem_count_small();
    assert(dims.skip(1) =~= seq![c]);
    assert(tensor::tensor_stride(t)[0] == c);
    assert(0 * e == 0) by (nonlinear_arith);
    let row = c * e;
    let all = nproc * local;
    assert(row >= 1) by (nonlinear_arith)
        requires
            row == c * e,
            c >= 1,
            e >= 1,
    ;
    assert(all >= 1) by (nonlinear_arith)
        requires
            all == nproc * local,
            nproc >= 1,
            local >= 1,
    ;
    assert(all <= all * row && row <= all * row) by (nonlinear_arith)
        requires
            all >= 1,
            row >= 1,
    ;
    let each = transfer::apart(Dist::VocabParallel, local as nat, r as nat, nproc as nat);
    let next = iproc * each;
    lemma_fundamental_div_mod(r as int, nproc as int);
    assert(next <= all || next <= r) by (nonlinear_arith)
        requires
            next == iproc * each,
            all == nproc * local,
            iproc <= nproc,
            each == local || r == nproc * each,
    ;
    let first = transfer::first_of(
        Dist::VocabParallel,
        local as nat,
        r as nat,
        iproc as nat,
        nproc as nat,
    );
    assert(first * c <= first * row && first * c * e == first * row) by (nonlinear_arith)
        requires
            row == c * e,
            e >= 1,
            first >= 0,
    ;
    assert(first * row <= r * row) by (nonlinear_arith)
        requires
            first <= r,
            row >= 1,
    ;
}

/// The part of the rows that starts at `start` is the rows from there on, as many as the buffer
/// has, and zeros where there are no more.
proof fn lemma_part_of_rows(
    full: Seq<u8>,
    dims: Seq<usize>,
    r: usize,
    c: usize,
    start: nat,
    size: nat,
)
    requires
        dims.len() == 2,
        dims[1] == c,
        start <= r,
        full.len() == r * c * size,
    ensures
        ({
            let n = convert::part_len(dims[0] as nat, r as nat, start);
            let row = c * size;
            &&& convert::part_bytes(full, dims, seq![r, c], 0, start, size) == full.subrange(
                start * row,
                (start + n) * row,
            ) + tensor::zero_bytes(((dims[0] - n) * row) as nat)
            &&& 0 <= start * row <= (start + n) * row <= full.len()
        }),
{
    tensor::lemma_elem_count_small();
    let whole = seq![r, c];
    let local = dims[0];
    let n = convert::part_len(local as nat, r as nat, start);
    let row = c as nat * size;
    let taken = convert::part_bytes(full, dims, whole, 0, start, size);
    assert(whole.skip(1) =~= seq![c]);
    assert(whole.take(0) =~= Seq::<usize>::empty());
    assert(tensor::step_bytes(whole, size, 0) == row);
    assert(r * row == full.len()) by (nonlinear_arith)
        requires
            row == c as nat * size,
            full.len() == r * c * size,
    ;
    assert(start * row + n * row <= r * row) by (nonlinear_arith)
        requires
            start + n <= r,
    ;
    assert((start + n) * row == start * row + n * row) by (nonlinear_arith);
    let part = n * row;
    let kept = tensor::narrow_bytes(full, 1, (r * row) as nat, start * row, part);
    let mine = full.subrange((start * row) as int, (start * row + part) as int);
    assert(1 * part == part) by (nonlinear_arith);
    assert forall|i: int| 0 <= i < part implies kept[i] == mine[i] by {
        lemma_fundamental_div_mod_converse(i, part as int, 0, i);
        assert(0 * (r * row) == 0) by (nonlinear_arith);
    }
    assert(kept =~= mine);
    let rest = (local - n) as nat;
    if n == 0 {
        assert(convert::fill_dims(dims, 0, local) =~= seq![local, c]);
        assert(tensor::elem_count(seq![local, c]) * size == rest * row) by (nonlinear_arith)
            requires
                tensor::elem_count(seq![local, c]) == local * c,
                row == c as nat * size,
                rest == local,
        ;
        assert(part == 0) by (nonlinear_arith)
            requires
                part == n * row,
                n == 0,
        ;
        assert(taken =~= mine + tensor::zero_bytes(rest * row));
    } else if n < local {
        let more = rest * row;
        let zeros = tensor::zero_bytes(more);
        assert(convert::fill_dims(dims, 0, rest as usize) =~= seq![rest as usize, c]);
        assert(tensor::elem_count(seq![rest as usize, c]) * size == more) by (nonlinear_arith)
            requires
                tensor::elem_count(seq![rest as usize, c]) == rest * c,
                row == c as nat * size,
                more == rest * row,
        ;
        assert(1 * (part + more) == part + more) by (nonlinear_arith);
        let both = tensor::cat_bytes(kept, part, zeros, more, 1);
        assert(taken == both);
        assert forall|i: int| 0 <= i < part + more implies both[i] == (mine + zeros)[i] by {
            lemma_fundamental_div_mod_converse(i, (part + more) as int, 0, i);
            assert(0 * part == 0 && 0 * more == 0) by (nonlinear_arith);
        }
        assert(both =~= mine + zeros);
    } else {
        assert(rest * row == 0) by (nonlinear_arith)
            requires
                rest == 0,
        ;
        assert(taken =~= mine + tensor::zero_bytes(0));
    }
}

/// What a rank takes of the rows of a cast are the rows from its first one on, as many as its
/// buffer has, and zeros where there are no more.
pub proof fn law_short_part_is_filled_up(
    full: Seq<u8>,
    dims: Seq<usize>,
    r: usize,
    c: usize,
    dist: Dist,
    iproc: nat,
    nproc: nat,
    size: nat,
)
    requires
        dist == Dist::ColumnSharded || dist == Dist::VocabParallel,
        nproc > 0,
        iproc < nproc,
        r as nat % nproc == 0,
        dims.len() == 2,
        dims[1] == c,
        full.len() == r * c * size,
    ensures
        ({
            let start = transfer::first_of(dist, dims[0] as nat, r as nat, iproc, nproc);
            let n = convert::part_len(dims[0] as nat, r as nat, start);
            let row = c * size;
            convert::converted_bytes(full, size, dims, TensorShape::D2(r, c), dist, iproc, nproc)
                == full.subrange(start * row, (start + n) * row) + tensor::zero_bytes(
                ((dims[0] - n) * row) as nat,
            )
        }),
{
    let h = r as nat / nproc;
    lemma_fundamental_div_mod(r as int, nproc as int);
    assert(iproc * h <= r) by (nonlinear_arith)
        requires
            r == nproc * h,
            iproc < nproc,
    ;
    let start = transfer::first_of(dist, dims[0] as nat, r as nat, iproc, nproc);
    lemma_part_of_rows(full, dims, r, c, start, size);
}

/// What a rank has room for, of rows that follow each other from rank to rank: its rows, and zeros
/// where there are no more.
pub open spec fn vocab_part(
    full: Seq<u8>,
    row: nat,
    local: nat,
    rows: nat,
    i: nat,
    nproc: nat,
) -> Seq<u8> {
    let first = transfer::first_of(Dist::VocabParallel, local, rows, i, nproc);
    let taken = transfer::taken_of(Dist::VocabParallel, local, rows, first);
    full.subrange((first * row) as int, ((first + taken) * row) as int) + tensor::zero_bytes(
        ((local - taken) * row) as nat,
    )
}

/// Where the ranks together have room for all rows, these follow each other by what each has room
/// for.
proof fn lemma_vocab_part(full: Seq<u8>, row: nat, local: nat, rows: nat, i: nat, nproc: nat)
    requires
        nproc > 0,
        rows % nproc == 0,
        local * nproc >= rows,
        full.len() == rows * row,
    ensures
        vocab_part(full, row, local, rows, i, nproc).len() == local * row,
        transfer::first_of(Dist::VocabParallel, local, rows, i, nproc) == (if i * local <= rows {
            i * local
        } else {
            rows
        }),
{
    lemma_fundamental_div_mod(rows as int, nproc as int);
    let each = rows / nproc;
    assert(local >= each) by (nonlinear_arith)
        requires
            local * nproc >= rows,
            rows == nproc * each,
            nproc > 0,
    ;
    let first = transfer::first_of(Dist::VocabParallel, local, rows, i, nproc);
    let taken = transfer::taken_of(Dist::VocabParallel, local, rows, first);
    assert(first + taken <= rows);
    assert((first + taken) * row == first * row + taken * row) by (nonlinear_arith);
    assert((first + taken) * row <= rows * row) by (nonlinear_arith)
        requires
            first + taken <= rows,
    ;
    assert((local - taken) * row == local * row - taken * row) by (nonlinear_arith);
    assert(taken * row <= local * row) by (nonlinear_arith)
        requires
            taken <= local,
    ;
}

proof fn lemma_gathered(
    full: Seq<u8>,
    row: nat,
    local: nat,
    rows: nat,
    nproc: nat,
    parts: Seq<Seq<u8>>,
)
    requires
        nproc > 0,
        rows % nproc == 0,
        local * nproc >= rows,
        full.len() == rows * row,
        forall|i: int|
            0 <= i < parts.len() ==> #[trigger] parts[i] == vocab_part(
                full,
                row,
                local,
                rows,
                i as nat,
                nproc,
            ),
    ensures
        ({
            let k = parts.len();
            let seen = if k * local <= rows {
                k * local
            } else {
                rows
            };
            &&& parts.flatten().len() == k * local * row
            &&& seen * row <= k * local * row
            &&& parts.flatten().take((seen * row) as int) == full.take((seen * row) as int)
        }),
    decreases parts.len(),
{
    parts.lemma_flatten_and_flatten_alt_are_equivalent();
    let k = parts.len();
    let seen = if k * local <= rows {
        k * local
    } else {
        rows
    };
    assert(seen * row <= k * local * row) by (nonlinear_arith)
        requires
            seen <= k * local,
    ;
    assert(seen * row <= rows * row) by (nonlinear_arith)
        requires
            seen <= rows,
    ;
    if k == 0 {
        assert(k * local == 0 && k * local * row == 0) by (nonlinear_arith)
            requires
                k == 0,
        ;
        assert(seen * row == 0) by (nonlinear_arith)
            requires
                seen == 0,
        ;
        assert(parts.flatten_alt() =~= Seq::<u8>::empty());
        assert(parts.flatten().take(0) =~= full.take(0));
    } else {
        let before = parts.drop_last();
        let m = (k - 1) as nat;
        before.lemma_flatten_and_flatten_alt_are_equivalent();
        lemma_gathered(full, row, local, rows, nproc, before);
        lemma_vocab_part(full, row, local, rows, m, nproc);
        let last = parts.last();
        assert(last == vocab_part(full, row, local, rows, m, nproc));
        let a = before.flatten();
        let all = parts.flatten();
        assert(all == a + last);
        assert(k * local == m * local + local) by (nonlinear_arith)
            requires
                k == m + 1,
        ;
        assert(k * local * row == m * local * row + local * row) by (nonlinear_arith)
            requires
                k * local == m * local + local,
        ;
        if m * local >= rows {
            assert(rows * row <= m * local * row) by (nonlinear_arith)
                requires
                    rows <= m * local,
            ;
            assert(all.take((rows * row) as int) =~= a.take((rows * row) as int));
        } else {
            let first = m * local;
            let taken = transfer::taken_of(Dist::VocabParallel, local, rows, first);
            assert(seen == first + taken);
            assert((first + taken) * row == first * row + taken * row) by (nonlinear_arith);
            assert(a =~= a.take((first * row) as int));
            assert(taken * row <= local * row) by (nonlinear_arith)
                requires
                    taken <= local,
            ;
            let mine = full.subrange((first * row) as int, ((first + taken) * row) as int);
            assert(last.take((taken * row) as int) =~= mine);
            assert(all.take((seen * row) as int) =~= a + last.take((taken * row) as int));
            assert(full.take((seen * row) as int) =~= full.take((first * row) as int) + mine);
        }
    }
}

/// What a buffer that was made with zeros holds once a copy has been written over its start.
pub open spec fn filled(src: Seq<u8>, c: GpuCopy, room: nat) -> Seq<u8> {
    copied(src, c) + tensor::zero_bytes((room - copied(src, c).len()) as nat)
}

/// Where a tensor is split over the vocabulary, each rank copies the rows that it has room for from
/// its first one on, and has zeros where there are no more. It reads nothing outside the tensor.
pub proof fn law_vocab_copy(
    t: Target,
    r: usize,
    c: usize,
    iproc: nat,
    nproc: nat,
    src: Seq<u8>,
)
    requires
        transfer::copy_defined(t, TensorShape::D2(r, c), Dist::VocabParallel, iproc, nproc),
        t.dims.len() == 2,
        t.dims[1] == c,
        src.len() == r * c * t.elem,
    ensures
        ({
            let copy = rows_of(t, TensorShape::D2(r, c), Dist::VocabParallel, iproc, nproc);
            let row = c * t.elem;
            &&& reads_inside(copy, src.len())
            &&& filled(src, copy, (t.dims[0] * row) as nat) == vocab_part(
                src,
                row as nat,
                t.dims[0] as nat,
                r as nat,
                iproc,
                nproc,
            )
        }),
{
    let row = c as nat * t.elem;
    let local = t.dims[0] as nat;
    let first = transfer::first_of(Dist::VocabParallel, local, r as nat, iproc, nproc);
    let taken = transfer::taken_of(Dist::VocabParallel, local, r as nat, first);
    assert(r * row == r * c * t.elem) by (nonlinear_arith)
        requires
            row == c as nat * t.elem,
    ;
    assert(first * c * t.elem == first * row) by (nonlinear_arith)
        requires
            row == c as nat * t.elem,
    ;
    assert(first * row + taken * row <= r * row) by (nonlinear_arith)
        requires
            first + taken <= r,
    ;
    assert((first + taken) * row == first * row + taken * row) by (nonlinear_arith);
    assert(taken > 0 ==> (taken - 1) * row + row == taken * row) by (nonlinear_arith);
    assert((local - taken) * row == local * row - taken * row) by (nonlinear_arith);
    lemma_rows_without_gap(src, taken, row, first * row);
}

/// The buffers of all ranks of a tensor that is split over the vocabulary, one after the other, are
/// the whole tensor and what it was filled up with: the first rows of them are those of the tensor.
pub proof fn law_vocab_copies_gather(
    ts: Seq<Target>,
    local: usize,
    r: usize,
    c: usize,
    elem: nat,
    src: Seq<u8>,
)
    requires
        src.len() == r * c * elem,
        local * ts.len() >= r,
        forall|i: int|
            #![trigger ts[i]]
            0 <= i < ts.len() ==> {
                &&& transfer::copy_defined(
                    ts[i],
                    TensorShape::D2(r, c),
                    Dist::VocabParallel,
                    i as nat,
                    ts.len(),
                )
                &&& ts[i].elem == elem
                &&& ts[i].dims == seq![local, c]
            },
    ensures
        Seq::new(
            ts.len(),
            |i: int|
                filled(
                    src,
                    rows_of(ts[i], TensorShape::D2(r, c), Dist::VocabParallel, i as nat, ts.len()),
                    (local * (c * elem)) as nat,
                ),
        ).flatten().take(src.len() as int) == src,
{
    let n = ts.len();
    let row = c as nat * elem;
    let parts = Seq::new(
        n,
        |i: int|
            filled(
                src,
                rows_of(ts[i], TensorShape::D2(r, c), Dist::VocabParallel, i as nat, n),
                (local * (c * elem)) as nat,
            ),
    );
    assert(r * row == r * c * elem) by (nonlinear_arith)
        requires
            row == c as nat * elem,
    ;
    if n == 0 {
        assert(r * row == 0) by (nonlinear_arith)
            requires
                local * n >= r,
                n == 0,
                row >= 0,
        ;
        parts.lemma_flatten_and_flatten_alt_are_equivalent();
        assert(parts.flatten().take(0) =~= src);
    } else {
        assert forall|i: int| 0 <= i < n implies #[trigger] parts[i] == vocab_part(
            src,
            row,
            local as nat,
            r as nat,
            i as nat,
            n,
        ) by {
            assert(ts[i].elem == elem);
            law_vocab_copy(ts[i], r, c, i as nat, n, src);
        }
        assert(transfer::copy_defined(ts[0], TensorShape::D2(r, c), Dist::VocabParallel, 0, n));
        lemma_gathered(src, row, local as nat, r as nat, n, parts);
        vstd::arithmetic::mul::lemma_mul_is_commutative(n as int, local as int);
        assert(src.take(src.len() as int) =~= src);
    }
}

/// What the casts that the ranks make of one and the same bytes have at the places of the parts that
/// the ranks take: byte `b` is that of the rank whose part it lies in.
spec fn patched(fulls: Seq<Seq<u8>>, block: nat) -> Seq<u8> {
    if block == 0 {
        fulls[0]
    } else {
        Seq::new(fulls[0].len(), |b: int| fulls[b / block as int][b])
    }
}

proof fn lemma_patched_is_cast(
    bytes: Seq<u8>,
    from: DType,
    to: DType,
    fulls: Seq<Seq<u8>>,
    local: nat,
    r: nat,
    c: nat,
)
    requires
        fulls.len() > 0,
        local * fulls.len() >= r,
        forall|i: int|
            0 <= i < fulls.len() ==> tensor::is_cast(
                from,
                to,
                r * c,
                bytes,
                #[trigger] fulls[i],
            ),
    ensures
        tensor::is_cast(
            from,
            to,
            r * c,
            bytes,
            patched(fulls, local * c * tensor::elem_size(to)),
        ),
{
    let n = fulls.len();
    let e = tensor::elem_size(to);
    let wide = local * c;
    let block = wide * e;
    let all = patched(fulls, block);
    assert(tensor::is_cast(from, to, r * c, bytes, fulls[0]));
    let sf = tensor::elem_size(from);
    assert forall|k: int| 0 <= k < r * c && block > 0 implies tensor::elem_cast(
        from,
        to,
        #[trigger] tensor::piece(bytes, sf, k),
        tensor::piece(all, e, k),
    ) by {
        assert(wide > 0) by (nonlinear_arith)
            requires
                block == wide * e,
                block > 0,
        ;
        let i = k / wide as int;
        let m = k % wide as int;
        lemma_fundamental_div_mod(k, wide as int);
        assert(0 <= i < n) by (nonlinear_arith)
            requires
                0 <= k < r * c,
                k == wide * i + m,
                0 <= m < wide,
                wide == local * c,
                local * n >= r,
        ;
        assert(0 <= k * e && k * e + e <= (r * c) * e) by (nonlinear_arith)
            requires
                0 <= k < r * c,
        ;
        assert(tensor::is_cast(from, to, r * c, bytes, fulls[i]));
        let x = tensor::piece(all, e, k);
        let y = tensor::piece(fulls[i], e, k);
        assert forall|j: int| 0 <= j < e implies x[j] == y[j] by {
            let b = k * e + j;
            let rest = m * e + j;
            assert(0 <= rest < block && b == i * block + rest) by (nonlinear_arith)
                requires
                    rest == m * e + j,
                    b == k * e + j,
                    k == wide * i + m,
                    block == wide * e,
                    0 <= m < wide,
                    0 <= j < e,
            ;
            lemma_fundamental_div_mod_converse(b, block as int, i, rest);
        }
        assert(x =~= y);
    }
}

proof fn lemma_patched_part(fulls: Seq<Seq<u8>>, row: nat, local: nat, rows: nat, i: nat)
    requires
        i < fulls.len(),
        rows % fulls.len() == 0,
        local * fulls.len() >= rows,
        forall|k: int| 0 <= k < fulls.len() ==> (#[trigger] fulls[k]).len() == rows * row,
    ensures
        vocab_part(patched(fulls, local * row), row, local, rows, i, fulls.len()) == vocab_part(
            fulls[i as int],
            row,
            local,
            rows,
            i,
            fulls.len(),
        ),
{
    let n = fulls.len();
    let block = local * row;
    let all = patched(fulls, block);
    let mine = fulls[i as int];
    lemma_vocab_part(all, row, local, rows, i, n);
    lemma_vocab_part(mine, row, local, rows, i, n);
    let first = transfer::first_of(Dist::VocabParallel, local, rows, i, n);
    let taken = transfer::taken_of(Dist::VocabParallel, local, rows, first);
    let (a, b) = (first * row, (first + taken) * row);
    assert(b == a + taken * row && taken * row <= block && b <= rows * row) by (nonlinear_arith)
        requires
            a == first * row,
            b == (first + taken) * row,
            taken <= local,
            block == local * row,
            first + taken <= rows,
    ;
    if taken > 0 && row > 0 {
        assert(first == i * local);
        assert(a == i * block) by (nonlinear_arith)
            requires
                a == first * row,
                first == i * local,
                block == local * row,
        ;
        assert forall|x: int| a <= x < b implies all[x] == mine[x] by {
            lemma_fundamental_div_mod_converse(x, block as int, i as int, x - a);
        }
    } else {
        assert(taken * row == 0) by (nonlinear_arith)
            requires
                taken == 0 || row == 0,
        ;
    }
    assert(all.subrange(a as int, b as int) =~= mine.subrange(a as int, b as int));
}

/// Where the ranks take their rows of a tensor that is split over the vocabulary out of casts, each
/// out of its own, what they have, one after the other, starts with a cast of the whole tensor.
pub proof fn law_vocab_casts_gather(
    bytes: Seq<u8>,
    from: DType,
    to: DType,
    fulls: Seq<Seq<u8>>,
    local: usize,
    r: usize,
    c: usize,
)
    requires
        fulls.len() > 0,
        r as nat % fulls.len() == 0,
        local * fulls.len() >= r,
        forall|i: int|
            0 <= i < fulls.len() ==> tensor::is_cast(
                from,
                to,
                r as nat * c as nat,
                bytes,
                #[trigger] fulls[i],
            ),
    ensures
        ({
            let size = tensor::elem_size(to);
            let all = Seq::new(
                fulls.len(),
                |i: int|
                    convert::converted_bytes(
                        fulls[i],
                        size,
                        seq![local, c],
                        TensorShape::D2(r, c),
                        Dist::VocabParallel,
                        i as nat,
                        fulls.len(),
                    ),
            ).flatten();
            &&& r * c * size <= all.len()
            &&& tensor::is_cast(from, to, r as nat * c as nat, bytes, all.take(r * c * size))
        }),
{
    let n = fulls.len();
    let size = tensor::elem_size(to);
    let row = c as nat * size;
    let dims = seq![local, c];
    let parts = Seq::new(
        n,
        |i: int|
            convert::converted_bytes(
                fulls[i],
                size,
                dims,
                TensorShape::D2(r, c),
                Dist::VocabParallel,
                i as nat,
                n,
            ),
    );
    assert(r * row == r * c * size && local * row == local * c * size) by (nonlinear_arith)
        requires
            row == c as nat * size,
    ;
    let whole = patched(fulls, local as nat * row);
    assert(tensor::is_cast(from, to, r as nat * c as nat, bytes, fulls[0]));
    assert forall|i: int| 0 <= i < n implies #[trigger] parts[i] == vocab_part(
        whole,
        row,
        local as nat,
        r as nat,
        i as nat,
        n,
    ) by {
        assert(tensor::is_cast(from, to, r as nat * c as nat, bytes, fulls[i]));
        law_short_part_is_filled_up(
            fulls[i],
            dims,
            r,
            c,
            Dist::VocabParallel,
            i as nat,
            n,
            size,
        );
        assert forall|k: int| 0 <= k < n implies (#[trigger] fulls[k]).len() == r * row by {
            assert(tensor::is_cast(from, to, r as nat * c as nat, bytes, fulls[k]));
        }
        lemma_patched_part(fulls, row, local as nat, r as nat, i as nat);
    }
    lemma_gathered(whole, row, local as nat, r as nat, n, parts);
    vstd::arithmetic::mul::lemma_mul_is_commutative(n as int, local as int);
    lemma_patched_is_cast(bytes, from, to, fulls, local as nat, r as nat, c as nat);
    assert(whole.take(whole.len() as int) =~= whole);
}

/// The cast that a tensor was taken out of.
spec fn cast_behind(
    t: Tensor,
    bytes: Seq<u8>,
    from: DType,
    to: DType,
    dims: Seq<usize>,
    shape: TensorShape,
    dist: Dist,
    iproc: nat,
    nproc: nat,
) -> Seq<u8> {
    choose|full: Seq<u8>| #[trigger]
        tensor::is_cast(
            from,
            to,
            tensor::elem_count(convert::source_dims(shape, dist, dims)),
            bytes,
            full,
        ) && tensor::made_bytes(t) == convert::converted_bytes(
            full,
            tensor::elem_size(to),
            dims,
            shape,
            dist,
            iproc,
            nproc,
        )
}

/// What the ranks fill their buffers with, one rank after the other, starts with a cast of the whole
/// tensor, if it is split over the vocabulary, the buffers together have room for it, and it is cast
/// on every rank.
pub proof fn law_vocab_fills_gather(
    parts: Seq<Tensor>,
    bytes: Seq<u8>,
    from: DType,
    to: DType,
    local: usize,
    r: usize,
    c: usize,
    on_cpu: bool,
)
    requires
        parts.len() > 0,
        r as nat % parts.len() == 0,
        local * parts.len() >= r,
        forall|i: int|
            0 <= i < parts.len() ==> convert::is_conversion(
                Some(#[trigger] parts[i]),
                bytes,
                from,
                to,
                seq![local, c],
                TensorShape::D2(r, c),
                Dist::VocabParallel,
                i as nat,
                parts.len(),
                on_cpu,
            ),
    ensures
        ({
            let all = Seq::new(parts.len(), |i: int| tensor::made_bytes(parts[i])).flatten();
            let len = r * c * tensor::elem_size(to);
            &&& len <= all.len()
            &&& tensor::is_cast(from, to, r as nat * c as nat, bytes, all.take(len))
        }),
{
    let n = parts.len();
    let dims = seq![local, c];
    let shape = TensorShape::D2(r, c);
    let dist = Dist::VocabParallel;
    let fulls = Seq::new(
        n,
        |i: int| cast_behind(parts[i], bytes, from, to, dims, shape, dist, i as nat, n),
    );
    tensor::lemma_elem_count_small();
    assert forall|i: int| 0 <= i < n implies tensor::is_cast(
        from,
        to,
        r as nat * c as nat,
        bytes,
        #[trigger] fulls[i],
    ) && tensor::made_bytes(parts[i]) == convert::converted_bytes(
        fulls[i],
        tensor::elem_size(to),
        dims,
        shape,
        dist,
        i as nat,
        n,
    ) by {
        assert(convert::is_converted(parts[i], bytes, from, to, dims, shape, dist, i as nat, n));
        assert(convert::source_dims(shape, dist, dims) == seq![r, c]);
    }
    law_vocab_casts_gather(bytes, from, to, fulls, local, r, c);
    assert(Seq::new(n, |i: int| tensor::made_bytes(parts[i])) =~= Seq::new(
        fulls.len(),
        |i: int|
            convert::converted_bytes(
                fulls[i],
                tensor::elem_size(to),
                seq![local, c],
                TensorShape::D2(r, c),
                Dist::VocabParallel,
                i as nat,
                fulls.len(),
            ),
    ));
}

/// Taking steps of whole elements takes whole elements.
proof fn lemma_narrow_piece(
    b: Seq<u8>,
    e: nat,
    outer: nat,
    full: nat,
    skipped: nat,
    part: nat,
    k: int,
)
    requires
        0 <= k < outer * part,
        b.len() >= e * ((outer - 1) * full + skipped + part),
    ensures
        ({
            let at = tensor::narrow_at(full, skipped, part, k);
            &&& 0 <= at < (outer - 1) * full + skipped + part
            &&& tensor::piece(
                tensor::narrow_bytes(b, outer, full * e, skipped * e, part * e),
                e,
                k,
            ) == tensor::piece(b, e, at)
        }),
{
    let p = part as int;
    assert(outer > 0 && part > 0) by (nonlinear_arith)
        requires
            0 <= k < outer * part,
    ;
    let q = k / p;
    let m = k % p;
    lemma_fundamental_div_mod(k, p);
    assert(0 <= q < outer) by (nonlinear_arith)
        requires
            k == p * q + m,
            0 <= m < p,
            0 <= k < outer * p,
    ;
    let at = tensor::narrow_at(full, skipped, part, k);
    assert(at == q * full + skipped + m);
    assert(0 <= q * full <= (outer - 1) * full) by (nonlinear_arith)
        requires
            0 <= q <= outer - 1,
    ;
    let taken = tensor::narrow_bytes(b, outer, full * e, skipped * e, part * e);
    assert(outer * (part * e) == (outer * part) * e) by (nonlinear_arith);
    assert(k * e + e <= (outer * part) * e) by (nonlinear_arith)
        requires
            k + 1 <= outer * part,
    ;
    assert(at * e + e <= e * ((outer - 1) * full + skipped + part)) by (nonlinear_arith)
        requires
            at + 1 <= (outer - 1) * full + skipped + part,
    ;
    assert(0 <= k * e && 0 <= at * e) by (nonlinear_arith)
        requires
            0 <= k,
            0 <= at,
    ;
    let x = tensor::piece(taken, e, k);
    let y = tensor::piece(b, e, at);
    assert forall|j: int| 0 <= j < e implies x[j] == y[j] by {
        let i = k * e + j;
        let pe = part * e;
        let rest = m * e + j;
        assert(0 <= rest < pe) by (nonlinear_arith)
            requires
                rest == m * e + j,
                pe == part * e,
                0 <= m < part,
                0 <= j < e,
        ;
        assert(i == q * pe + rest) by (nonlinear_arith)
            requires
                i == k * e + j,
                k == p * q + m,
                pe == p * e,
                rest == m * e + j,
        ;
        lemma_fundamental_div_mod_converse(i, pe as int, q, rest);
        assert(q * (full * e) + skipped * e + rest == at * e + j) by (nonlinear_arith)
            requires
                at == q * full + skipped + m,
                rest == m * e + j,
        ;
        assert(i < outer * (part * e));
        assert(taken[i] == b[tensor::narrow_at(full * e, skipped * e, pe, i)]);
    }
    assert(x =~= y);
}

/// The numbers that a copy of rows is made of, in elements: how far it skips, how many it goes on
/// by from row to row, and how many it takes of each of how many rows. They end in the tensor.
proof fn lemma_copy_in_elements(
    t: Target,
    r: usize,
    c: usize,
    dist: Dist,
    iproc: nat,
    nproc: nat,
) -> (n: (nat, nat, nat, nat))
    requires
        transfer::copy_defined(t, TensorShape::D2(r, c), dist, iproc, nproc),
        iproc < nproc,
        t.dims.len() == 2,
        exact_dims(t.dims, r, c, dist, nproc),
    ensures
        n == elements_of(t.dims, r, c, dist, iproc, nproc),
        ({
            let copy = transfer::row_copy(t, TensorShape::D2(r, c), dist, iproc, nproc);
            let (skipped, full, part, outer) = n;
            &&& copy.src_offset == skipped * t.elem
            &&& copy.src_pitch == full * t.elem
            &&& copy.width_bytes == part * t.elem
            &&& copy.height == outer
            &&& outer * part > 0 ==> (outer - 1) * full + skipped + part <= r * c
        }),
{
    let n = elements_of(t.dims, r, c, dist, iproc, nproc);
    let (skipped, full, part, outer) = n;
    match dist {
        Dist::ColumnSharded | Dist::VocabParallel => {
            let h = r as nat / nproc;
            lemma_even_pieces(dist, h, r as nat, iproc, nproc);
            assert(outer * part > 0 ==> (h - 1) * c + iproc * h * c + c <= r * c)
                by (nonlinear_arith)
                requires
                    iproc * h + h <= r,
                    outer == h,
                    part == c,
            ;
        },
        Dist::RowSharded => {
            let each = c as nat / nproc;
            lemma_even_pieces(dist, each, c as nat, iproc, nproc);
            assert(outer * part > 0 ==> (r - 1) * c + iproc * each + each <= r * c)
                by (nonlinear_arith)
                requires
                    iproc * each + each <= c,
                    outer == r,
                    part == each,
            ;
        },
        Dist::Replicated => {
            assert(outer * part > 0 ==> (r - 1) * c + c <= r * c) by (nonlinear_arith)
                requires
                    outer == r,
                    part == c,
            ;
            assert(0 * t.elem == 0) by (nonlinear_arith);
        },
    }
    n
}

/// The dimensions of a buffer are those of a rank's equal part.
pub open spec fn exact_dims(dims: Seq<usize>, r: usize, c: usize, dist: Dist, nproc: nat) -> bool {
    match dist {
        Dist::ColumnSharded | Dist::VocabParallel => dims[0] == r as nat / nproc && dims[1] == c,
        Dist::RowSharded => dims[0] == r && dims[1] == c as nat / nproc,
        Dist::Replicated => dims[0] == r && dims[1] == c,
    }
}

/// What a rank takes, in elements: how many it skips, how many there are from row to row, and how
/// many it takes of each of how many rows.
spec fn elements_of(
    dims: Seq<usize>,
    r: usize,
    c: usize,
    dist: Dist,
    iproc: nat,
    nproc: nat,
) -> (nat, nat, nat, nat) {
    match dist {
        Dist::ColumnSharded | Dist::VocabParallel => (
            iproc * (r as nat / nproc) * c as nat,
            c as nat,
            c as nat,
            r as nat / nproc,
        ),
        Dist::RowSharded => (
            iproc * (c as nat / nproc),
            c as nat,
            c as nat / nproc,
            r as nat,
        ),
        Dist::Replicated => (0, c as nat, c as nat, r as nat),
    }
}

/// Whether elements are copied as they are or cast makes no difference but the cast: what a rank
/// takes out of a cast is, element by element, a cast of what it copies. `raw` and `wide` are the
/// buffers for either type.
pub proof fn law_cast_commutes_with_copy(
    raw: Target,
    wide: Target,
    from: DType,
    to: DType,
    r: usize,
    c: usize,
    dist: Dist,
    iproc: nat,
    nproc: nat,
    bytes: Seq<u8>,
    full: Seq<u8>,
)
    requires
        raw.elem == tensor::elem_size(from),
        wide.elem == tensor::elem_size(to),
        raw.dims == wide.dims,
        raw.dims.len() == 2,
        exact_dims(raw.dims, r, c, dist, nproc),
        iproc < nproc,
        transfer::copy_defined(raw, TensorShape::D2(r, c), dist, iproc, nproc),
        transfer::copy_defined(wide, TensorShape::D2(r, c), dist, iproc, nproc),
        tensor::is_cast(from, to, r as nat * c as nat, bytes, full),
    ensures
        tensor::is_cast(
            from,
            to,
            raw.dims[0] as nat * raw.dims[1] as nat,
            copied(bytes, rows_of(raw, TensorShape::D2(r, c), dist, iproc, nproc)),
            convert::converted_bytes(
                full,
                tensor::elem_size(to),
                wide.dims,
                TensorShape::D2(r, c),
                dist,
                iproc,
                nproc,
            ),
        ),
{
    let sf = tensor::elem_size(from);
    let st = tensor::elem_size(to);
    law_cast_and_copy_agree(wide, r, c, dist, iproc, nproc, full);
    let (skipped, step, part, outer) = lemma_copy_in_elements(raw, r, c, dist, iproc, nproc);
    let same = lemma_copy_in_elements(wide, r, c, dist, iproc, nproc);
    let x = copied(bytes, rows_of(raw, TensorShape::D2(r, c), dist, iproc, nproc));
    let y = copied(full, rows_of(wide, TensorShape::D2(r, c), dist, iproc, nproc));
    assert(x == tensor::narrow_bytes(bytes, outer, step * sf, skipped * sf, part * sf));
    assert(y == tensor::narrow_bytes(full, outer, step * st, skipped * st, part * st));
    let n = outer * part;
    assert(n == raw.dims[0] as nat * raw.dims[1] as nat);
    assert(outer * (part * sf) == n * sf && outer * (part * st) == n * st) by (nonlinear_arith)
        requires
            n == outer * part,
    ;
    let last = (outer - 1) * step + skipped + part;
    assert forall|k: int| 0 <= k < n implies tensor::elem_cast(
        from,
        to,
        #[trigger] tensor::piece(x, sf, k),
        tensor::piece(y, st, k),
    ) by {
        assert(sf * last <= (r * c) * sf && st * last <= (r * c) * st) by (nonlinear_arith)
            requires
                last <= r * c,
        ;
        lemma_narrow_piece(bytes, sf, outer, step, skipped, part, k);
        lemma_narrow_piece(full, st, outer, step, skipped, part, k);
        let at = tensor::narrow_at(step, skipped, part, k);
        assert(tensor::elem_cast(
            from,
            to,
            tensor::piece(bytes, sf, at),
            tensor::piece(full, st, at),
        ));
    }
}

/// What is cast for a buffer of a rank's equal part has the buffer's dimensions.
proof fn lemma_exact_dims(
    dims: Seq<usize>,
    r: usize,
    c: usize,
    dist: Dist,
    iproc: nat,
    nproc: nat,
)
    requires
        iproc < nproc,
        dims.len() == 2,
        exact_dims(dims, r, c, dist, nproc),
        match dist {
            Dist::ColumnSharded | Dist::VocabParallel => r as nat % nproc == 0,
            Dist::RowSharded => c as nat % nproc == 0,
            Dist::Replicated => true,
        },
    ensures
        convert::converted_dims(dims, TensorShape::D2(r, c), dist, iproc, nproc) == dims,
{
    match dist {
        Dist::ColumnSharded | Dist::VocabParallel => {
            lemma_even_pieces(dist, dims[0] as nat, r as nat, iproc, nproc);
        },
        Dist::RowSharded => {
            lemma_even_pieces(dist, dims[1] as nat, c as nat, iproc, nproc);
        },
        Dist::Replicated => {},
    }
    assert(convert::converted_dims(dims, TensorShape::D2(r, c), dist, iproc, nproc) =~= dims);
}

/// Of a tensor without rows, nothing is copied and nothing is taken out of a cast.
proof fn lemma_no_rows(
    t: Target,
    c: usize,
    dist: Dist,
    iproc: nat,
    nproc: nat,
    bytes: Seq<u8>,
    full: Seq<u8>,
    size: nat,
)
    requires
        iproc < nproc,
        t.dims.len() == 2,
        exact_dims(t.dims, 0, c, dist, nproc),
        transfer::copy_defined(t, TensorShape::D2(0, c), dist, iproc, nproc),
        full.len() == 0,
    ensures
        tensor::elem_count(t.dims) == 0,
        copied(bytes, rows_of(t, TensorShape::D2(0, c), dist, iproc, nproc)).len() == 0,
        convert::converted_bytes(full, size, t.dims, TensorShape::D2(0, c), dist, iproc, nproc).len()
            == 0,
{
    tensor::lemma_elem_count_small();
    assert(t.dims =~= seq![t.dims[0], t.dims[1]]);
    assert(0nat / nproc == 0) by (nonlinear_arith)
        requires
            nproc > 0,
    ;
    assert(0usize * t.dims[1] == 0) by (nonlinear_arith);
    let copy = transfer::row_copy(t, TensorShape::D2(0, c), dist, iproc, nproc);
    assert(copy.height == 0);
    assert(0 * copy.width_bytes == 0) by (nonlinear_arith);
    if dist == Dist::RowSharded {
        let whole = seq![0usize, c];
        assert(whole.take(1) =~= seq![0usize]);
        lemma_even_pieces(dist, t.dims[1] as nat, c as nat, iproc, nproc);
        assert(convert::fill_dims(t.dims, 1, t.dims[1]) =~= t.dims);
        assert(tensor::elem_count(t.dims) * size == 0) by (nonlinear_arith)
            requires
                tensor::elem_count(t.dims) == 0,
        ;
        let part = t.dims[1] * tensor::step_bytes(whole, size, 1);
        assert(0 * part == 0) by (nonlinear_arith);
    } else if dist != Dist::Replicated {
        lemma_even_pieces(dist, 0, 0, iproc, nproc);
        assert(convert::fill_dims(t.dims, 0, t.dims[0]) =~= t.dims);
        assert(tensor::elem_count(t.dims) * size == 0) by (nonlinear_arith)
            requires
                tensor::elem_count(t.dims) == 0,
        ;
    }
}

/// A tensor that is cast for a buffer of a rank's equal part is, element by element, a cast of what
/// the copy into such a buffer takes where it is copied as it is: either way the same elements of the
/// whole go to the same places. `raw` is the buffer for the type in the file.
pub proof fn law_fills_agree(
    raw: Tensor,
    base: u64,
    copy: GpuCopy,
    t: Tensor,
    bytes: Seq<u8>,
    from: DType,
    to: DType,
    r: usize,
    c: usize,
    dist: Dist,
    iproc: nat,
    nproc: nat,
    on_cpu: bool,
)
    requires
        iproc < nproc,
        tensor::tensor_dtype(raw) == from,
        tensor::tensor_dims(raw).len() == 2,
        exact_dims(tensor::tensor_dims(raw), r, c, dist, nproc),
        transfer::copy_defined(
            transfer::target_of(raw, base),
            TensorShape::D2(r, c),
            dist,
            iproc,
            nproc,
        ),
        transfer::is_copy(Ok(copy), raw, Some(base), TensorShape::D2(r, c), dist, iproc, nproc),
        convert::conversion_defined(
            bytes.len(),
            from,
            to,
            tensor::tensor_dims(raw),
            TensorShape::D2(r, c),
            dist,
            iproc,
            nproc,
        ),
        convert::is_conversion(
            Some(t),
            bytes,
            from,
            to,
            tensor::tensor_dims(raw),
            TensorShape::D2(r, c),
            dist,
            iproc,
            nproc,
            on_cpu,
        ),
    ensures
        tensor::tensor_dims(t) == tensor::tensor_dims(raw),
        tensor::tensor_dtype(t) == to,
        tensor::is_cast(
            from,
            to,
            tensor::elem_count(tensor::tensor_dims(raw)),
            copied(bytes, copy),
            tensor::made_bytes(t),
        ),
{
    let dims = tensor::tensor_dims(raw);
    let shape = TensorShape::D2(r, c);
    let target = transfer::target_of(raw, base);
    let size = tensor::elem_size(to);
    let full = cast_behind(t, bytes, from, to, dims, shape, dist, iproc, nproc);
    tensor::lemma_elem_count_small();
    assert(dims =~= seq![dims[0], dims[1]]);
    assert(convert::is_converted(t, bytes, from, to, dims, shape, dist, iproc, nproc));
    assert(convert::source_dims(shape, dist, dims) =~= seq![r, c]);
    assert(tensor::is_cast(from, to, r as nat * c as nat, bytes, full));
    lemma_exact_dims(dims, r, c, dist, iproc, nproc);
    let wide = Target { dims, stride: seq![dims[1], 1], start: 0, elem: size, base: 0 };
    assert(size >= 1);
    if r > 0 {
        lemma_exact_copy_defined(wide, r, c, dist, iproc, nproc);
        law_cast_commutes_with_copy(
            target,
            wide,
            from,
            to,
            r,
            c,
            dist,
            iproc,
            nproc,
            bytes,
            full,
        );
    } else {
        assert(r * c * size == 0) by (nonlinear_arith)
            requires
                r == 0,
        ;
        lemma_no_rows(target, c, dist, iproc, nproc, bytes, full, size);
    }
}

} // verus!
