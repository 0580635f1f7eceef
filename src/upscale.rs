use vstd::prelude::*;
use vstd::arithmetic::div_mod::{lemma_fundamental_div_mod_converse, lemma_multiply_divide_lt};
use crate::gradients::acc;
use crate::tape::{BackwardOp, TapeHolder};
use crate::tensor::{checked_size, lemma_fit_reduced, size, sizes_fit, Tensor, TensorIds};

verus! {

/// Row-major position of element (`p`, `y`, `x`) among planes of `h` rows of `w` elements.
pub open spec fn flat(p: int, y: int, x: int, h: int, w: int) -> int {
    (p * h + y) * w + x
}

/// The source coordinate that nearest-neighbour scaling from `n_in` to `n_out` reads for `y`.
pub open spec fn nearest_src(y: int, n_in: int, n_out: int) -> int {
    y * n_in / n_out
}

/// The input position that output position `o` of an `ih` × `iw` to `oh` × `ow` upscale reads.
pub open spec fn src_of(o: int, ih: int, iw: int, oh: int, ow: int) -> int {
    let x = o % ow;
    let row = o / ow;
    flat(row / oh, nearest_src(row % oh, ih, oh), nearest_src(x, iw, ow), ih, iw)
}

/// Nearest-neighbour upscale of `planes` images of `ih` × `iw` to `oh` × `ow`.
pub open spec fn nearest(data: Seq<i64>, planes: nat, ih: nat, iw: nat, oh: nat, ow: nat) -> Seq<
    i64,
> {
    Seq::new(planes * oh * ow, |o: int| data[src_of(o, ih as int, iw as int, oh as int, ow as int)])
}

/// `base` after the gradients of the first `k` upscale outputs in `rg` are added into the input
/// positions that they read.
pub open spec fn scatter(
    base: Seq<i64>,
    rg: Seq<i64>,
    ih: int,
    iw: int,
    oh: int,
    ow: int,
    k: nat,
) -> Seq<i64>
    decreases k,
{
    if k == 0 {
        base
    } else {
        let prev = scatter(base, rg, ih, iw, oh, ow, (k - 1) as nat);
        let i = src_of(k - 1, ih, iw, oh, ow);
        prev.update(i, acc(prev[i], rg[k - 1]))
    }
}

/// `shape` with its last two dimensions replaced by `oh` and `ow`.
pub open spec fn upscaled_shape(shape: Seq<usize>, oh: usize, ow: usize) -> Seq<usize> {
    shape.take(shape.len() - 2).push(oh).push(ow)
}

/// An upscale keeps every leading dimension and makes the last two exactly `oh` × `ow`.
pub proof fn lemma_upscaled_shape(s: Seq<usize>, oh: usize, ow: usize)
    requires
        s.len() >= 2,
    ensures
        upscaled_shape(s, oh, ow).len() == s.len(),
        forall|i: int| 0 <= i < s.len() - 2 ==> #[trigger] upscaled_shape(s, oh, ow)[i] == s[i],
        upscaled_shape(s, oh, ow)[s.len() - 2] == oh,
        upscaled_shape(s, oh, ow)[s.len() - 1] == ow,
{
}

/// A row-major position gives back its coordinates.
pub proof fn lemma_coords(p: int, y: int, x: int, oh: int, ow: int)
    requires
        0 <= p,
        0 <= y < oh,
        0 <= x < ow,
    ensures
        flat(p, y, x, oh, ow) % ow == x,
        flat(p, y, x, oh, ow) / ow == p * oh + y,
        (p * oh + y) % oh == y,
        (p * oh + y) / oh == p,
{
    lemma_fundamental_div_mod_converse(flat(p, y, x, oh, ow), ow, p * oh + y, x);
    lemma_fundamental_div_mod_converse(p * oh + y, oh, p, y);
}

/// A position inside the planes lies inside their elements.
pub proof fn lemma_flat_bound(p: int, y: int, x: int, n: int, h: int, w: int)
    requires
        0 <= p < n,
        0 <= y < h,
        0 <= x < w,
    ensures
        0 <= flat(p, y, x, h, w) < n * h * w,
{
    assert(p * h + y + 1 <= n * h) by (nonlinear_arith)
        requires
            0 <= p < n,
            0 <= y < h,
    ;
    assert((p * h + y + 1) * w <= n * h * w) by (nonlinear_arith)
        requires
            p * h + y + 1 <= n * h,
            0 <= w,
    ;
    assert((p * h + y + 1) * w == (p * h + y) * w + w) by (nonlinear_arith);
    assert(0 <= (p * h + y) * w) by (nonlinear_arith)
        requires
            0 <= p,
            0 <= y,
            0 <= h,
            0 <= w,
    ;
}

/// Nearest-neighbour scaling reads inside the source.
pub proof fn lemma_src_bound(y: int, n_in: int, n_out: int)
    requires
        0 <= y < n_out,
        0 < n_in,
    ensures
        0 <= nearest_src(y, n_in, n_out) < n_in,
{
    assert(y * n_in < n_out * n_in) by (nonlinear_arith)
        requires
            0 <= y < n_out,
            0 < n_in,
    ;
    assert(0 <= y * n_in) by (nonlinear_arith)
        requires
            0 <= y,
            0 < n_in,
    ;
    lemma_multiply_divide_lt(y * n_in, n_out, n_in);
}

/// The size of a shape is its leading size times its last two dimensions.
pub proof fn lemma_size_two(s: Seq<usize>)
    requires
        s.len() >= 2,
    ensures
        size(s) == size(s.take(s.len() - 2)) * s[s.len() - 2] * s[s.len() - 1],
{
    assert(s.drop_last().drop_last() =~= s.take(s.len() - 2));
    assert(size(s) == size(s.drop_last()) * (s.last() as nat));
    assert(size(s.drop_last()) == size(s.drop_last().drop_last()) * (s.drop_last().last() as nat));
}

/// The input position read for output column `x` of image `p` at source row `sy`.
pub(crate) fn nearest_index(sy: usize, x: usize, p: usize, ih: usize, iw: usize, ow: usize) -> (r:
    usize)
    requires
        0 < ow,
        x < ow,
        0 < iw,
        sy < ih,
        (p as int) * (ih as int) * (iw as int) <= usize::MAX,
        p < usize::MAX,
        ((p + 1) as int) * (ih as int) * (iw as int) <= usize::MAX,
    ensures
        r == flat(p as int, sy as int, nearest_src(x as int, iw as int, ow as int), ih as int, iw as int),
        r < ((p + 1) as int) * (ih as int) * (iw as int),
{
    proof {
        lemma_src_bound(x as int, iw as int, ow as int);
        lemma_flat_bound(p as int, sy as int, nearest_src(x as int, iw as int, ow as int), (p + 1) as int, ih as int, iw as int);
        assert((p as int) * (ih as int) + (sy as int) <= ((p + 1) as int) * (ih as int)) by (nonlinear_arith)
            requires sy < ih;
        assert(((p as int) * (ih as int) + (sy as int)) * (iw as int) <= ((p + 1) as int) * (ih as int) * (iw as int)) by (nonlinear_arith)
            requires (p as int) * (ih as int) + (sy as int) <= ((p + 1) as int) * (ih as int), 0 < iw;
        assert((p as int) * (ih as int) <= ((p + 1) as int) * (ih as int)) by (nonlinear_arith);
        assert(((p as int) * (ih as int) + (sy as int)) <= ((p as int) * (ih as int) + (sy as int)) * (iw as int)) by (nonlinear_arith)
            requires 0 < iw;
    }
    proof {
        assert((x as int) * (iw as int) <= (usize::MAX as int) * (usize::MAX as int)) by (nonlinear_arith)
            requires x <= usize::MAX, iw <= usize::MAX;
    }
    let sx = ((x as u128 * iw as u128) / ow as u128) as usize;
    (p * ih + sy) * iw + sx
}

/// How row-major positions move as the upscale loops advance, and what each one reads.
pub proof fn lemma_step(p: int, y: int, x: int, planes: int, ih: int, iw: int, oh: int, ow: int)
    requires
        0 <= p < planes,
        0 <= y < oh,
        0 <= x < ow,
    ensures
        0 <= flat(p, y, x, oh, ow) < planes * oh * ow,
        src_of(flat(p, y, x, oh, ow), ih, iw, oh, ow) == flat(
            p,
            nearest_src(y, ih, oh),
            nearest_src(x, iw, ow),
            ih,
            iw,
        ),
        flat(p, y, x, oh, ow) + 1 == flat(p, y, x + 1, oh, ow),
        flat(p, y, ow, oh, ow) == flat(p, y + 1, 0, oh, ow),
        flat(p, oh, 0, oh, ow) == flat(p + 1, 0, 0, oh, ow),
        flat(planes, 0, 0, oh, ow) == planes * oh * ow,
{
    lemma_coords(p, y, x, oh, ow);
    lemma_flat_bound(p, y, x, planes, oh, ow);
    assert(flat(p, y, ow, oh, ow) == flat(p, y + 1, 0, oh, ow)) by (nonlinear_arith);
    assert(flat(p, oh, 0, oh, ow) == flat(p + 1, 0, 0, oh, ow)) by (nonlinear_arith);
    assert(flat(planes, 0, 0, oh, ow) == planes * oh * ow) by (nonlinear_arith);
}

proof fn lemma_fits(p: int, planes: int, ih: int, iw: int)
    requires
        0 <= p < planes,
        0 <= ih,
        0 <= iw,
    ensures
        p * ih * iw <= (p + 1) * ih * iw <= planes * ih * iw,
{
    assert(p * ih * iw <= (p + 1) * ih * iw <= planes * ih * iw) by (nonlinear_arith)
        requires
            0 <= p < planes,
            0 <= ih,
            0 <= iw,
    ;
}

fn scaled(y: usize, n_in: usize, n_out: usize) -> (r: usize)
    requires
        y < n_out,
        0 < n_in,
    ensures
        r == nearest_src(y as int, n_in as int, n_out as int),
        r < n_in,
{
    proof {
        lemma_src_bound(y as int, n_in as int, n_out as int);
        assert((y as int) * (n_in as int) <= (usize::MAX as int) * (usize::MAX as int)) by (nonlinear_arith)
            requires y <= usize::MAX, n_in <= usize::MAX;
    }
    ((y as u128 * n_in as u128) / n_out as u128) as usize
}

/// Nearest-neighbour upscale of `planes` images of `ih` × `iw` held in `data` to `oh` × `ow`.
pub fn nearest_buffer(data: &Vec<i64>, planes: usize, ih: usize, iw: usize, oh: usize, ow: usize) -> (r: Vec<i64>)
    requires
        data@.len() == planes * ih * iw,
        planes * oh * ow == 0 || (ih > 0 && iw > 0),
    ensures
        r@ == nearest(data@, planes as nat, ih as nat, iw as nat, oh as nat, ow as nat),
{
    let ghost want = nearest(data@, planes as nat, ih as nat, iw as nat, oh as nat, ow as nat);
    let mut out: Vec<i64> = Vec::new();
    let mut p: usize = 0;
    let dlen = data.len();
    assert(flat(0, 0, 0, oh as int, ow as int) == 0) by (nonlinear_arith);
    while p < planes
        invariant
            p <= planes,
            dlen == data@.len(),
            want == nearest(data@, planes as nat, ih as nat, iw as nat, oh as nat, ow as nat),
            data@.len() == planes * ih * iw,
            planes * oh * ow == 0 || (ih > 0 && iw > 0),
            out@.len() == flat(p as int, 0, 0, oh as int, ow as int),
            out@ == want.take(out@.len() as int),
        decreases planes - p,
    {
        let mut y: usize = 0;
        while y < oh
            invariant
                p < planes,
                y <= oh,
                dlen == data@.len(),
                want == nearest(data@, planes as nat, ih as nat, iw as nat, oh as nat, ow as nat),
            want == nearest(data@, planes as nat, ih as nat, iw as nat, oh as nat, ow as nat),
                data@.len() == planes * ih * iw,
                planes * oh * ow == 0 || (ih > 0 && iw > 0),
                out@.len() == flat(p as int, y as int, 0, oh as int, ow as int),
                out@ == want.take(out@.len() as int),
            decreases oh - y,
        {
            let mut x: usize = 0;
            while x < ow
                invariant
                    p < planes,
                    y < oh,
                    x <= ow,
                    dlen == data@.len(),
                    want == nearest(data@, planes as nat, ih as nat, iw as nat, oh as nat, ow as nat),
                want == nearest(data@, planes as nat, ih as nat, iw as nat, oh as nat, ow as nat),
            want == nearest(data@, planes as nat, ih as nat, iw as nat, oh as nat, ow as nat),
                    data@.len() == planes * ih * iw,
                    planes * oh * ow == 0 || (ih > 0 && iw > 0),
                    out@.len() == flat(p as int, y as int, x as int, oh as int, ow as int),
                    out@ == want.take(out@.len() as int),
                decreases ow - x,
            {
                proof {
                    lemma_step(p as int, y as int, x as int, planes as int, ih as int, iw as int, oh as int, ow as int);
                    lemma_fits(p as int, planes as int, ih as int, iw as int);
                }
                let sy = scaled(y, ih, oh);
                let i = nearest_index(sy, x, p, ih, iw, ow);
                let ghost o = flat(p as int, y as int, x as int, oh as int, ow as int);
                assert(src_of(o, ih as int, iw as int, oh as int, ow as int) == i);
                out.push(data[i]);
                x = x + 1;
                assert(out@ =~= want.take(out@.len() as int));
            }
            assert(flat(p as int, y as int, ow as int, oh as int, ow as int) == flat(p as int, y + 1, 0, oh as int, ow as int)) by (nonlinear_arith);
            y = y + 1;
        }
        proof {
            assert(flat(p as int, oh as int, 0, oh as int, ow as int) == flat(p + 1, 0, 0, oh as int, ow as int)) by (nonlinear_arith);
        }
        p = p + 1;
    }
    assert(flat(planes as int, 0, 0, oh as int, ow as int) == planes * oh * ow) by (nonlinear_arith);
    assert(out@ =~= want);
    out
}

/// Adds each output gradient in `rg` into the input position that its output read.
pub fn scatter_buffer(
    base: Vec<i64>,
    rg: &Vec<i64>,
    planes: usize,
    ih: usize,
    iw: usize,
    oh: usize,
    ow: usize,
) -> (r: Vec<i64>)
    requires
        base@.len() == planes * ih * iw,
        rg@.len() == planes * oh * ow,
        planes * oh * ow == 0 || (ih > 0 && iw > 0),
    ensures
        r@ == scatter(base@, rg@, ih as int, iw as int, oh as int, ow as int, (planes * oh * ow) as nat),
{
    let mut buf = base;
    let blen = buf.len();
    let rlen = rg.len();
    let mut p: usize = 0;
    let mut o: usize = 0;
    assert(flat(0, 0, 0, oh as int, ow as int) == 0) by (nonlinear_arith);
    while p < planes
        invariant
            p <= planes,
            blen == buf@.len(),
            rlen == rg@.len(),
            buf@.len() == planes * ih * iw,
            rg@.len() == planes * oh * ow,
            planes * oh * ow == 0 || (ih > 0 && iw > 0),
            o == flat(p as int, 0, 0, oh as int, ow as int),
            buf@ == scatter(base@, rg@, ih as int, iw as int, oh as int, ow as int, o as nat),
        decreases planes - p,
    {
        let mut y: usize = 0;
        while y < oh
            invariant
                p < planes,
                y <= oh,
                blen == buf@.len(),
                rlen == rg@.len(),
                buf@.len() == planes * ih * iw,
                rg@.len() == planes * oh * ow,
                planes * oh * ow == 0 || (ih > 0 && iw > 0),
                o == flat(p as int, y as int, 0, oh as int, ow as int),
                buf@ == scatter(base@, rg@, ih as int, iw as int, oh as int, ow as int, o as nat),
            decreases oh - y,
        {
            let mut x: usize = 0;
            while x < ow
                invariant
                    p < planes,
                    y < oh,
                    x <= ow,
                    blen == buf@.len(),
                    rlen == rg@.len(),
                    buf@.len() == planes * ih * iw,
                    rg@.len() == planes * oh * ow,
                    planes * oh * ow == 0 || (ih > 0 && iw > 0),
                    o == flat(p as int, y as int, x as int, oh as int, ow as int),
                    buf@ == scatter(base@, rg@, ih as int, iw as int, oh as int, ow as int, o as nat),
                decreases ow - x,
            {
                proof {
                    lemma_step(p as int, y as int, x as int, planes as int, ih as int, iw as int, oh as int, ow as int);
                    lemma_fits(p as int, planes as int, ih as int, iw as int);
                }
                let sy = scaled(y, ih, oh);
                let i = nearest_index(sy, x, p, ih, iw, ow);
                let v = buf[i].wrapping_add(rg[o]);
                buf.set(i, v);
                o = o + 1;
                x = x + 1;
            }
            assert(flat(p as int, y as int, ow as int, oh as int, ow as int) == flat(p as int, y + 1, 0, oh as int, ow as int)) by (nonlinear_arith);
            y = y + 1;
        }
        assert(flat(p as int, oh as int, 0, oh as int, ow as int) == flat(p + 1, 0, 0, oh as int, ow as int)) by (nonlinear_arith);
        p = p + 1;
    }
    assert(flat(planes as int, 0, 0, oh as int, ow as int) == planes * oh * ow) by (nonlinear_arith);
    buf
}

/// Why an upscale was refused.
#[derive(Debug, Clone, Copy, PartialEq, Eq)]
pub enum UpscaleError {
    /// The input is neither C × H × W nor B × C × H × W.
    Rank,
    /// The output would have more elements than `usize` can count.
    TooLarge,
    /// The input images are empty while the output is not, so there is nothing to read.
    EmptyImage,
}

/// Number of images in a tensor of shape `s`: the size of all but its last two dimensions.
pub open spec fn planes_of(s: Seq<usize>) -> nat {
    size(s.take(s.len() - 2))
}

/// What upscaling `x` to `oh` × `ow`, with `id` for the result, gives.
pub open spec fn upscale_outcome<H: TapeHolder>(
    x: Tensor<H>,
    oh: usize,
    ow: usize,
    id: u64,
    r: Result<Tensor<H>, UpscaleError>,
) -> bool {
    let s = x@.shape;
    let planes = planes_of(s);
    let ih = s[s.len() - 2];
    let iw = s[s.len() - 1];
    if !(s.len() == 3 || s.len() == 4) {
        r == Err::<Tensor<H>, UpscaleError>(UpscaleError::Rank)
    } else if !sizes_fit(upscaled_shape(s, oh, ow)) {
        r == Err::<Tensor<H>, UpscaleError>(UpscaleError::TooLarge)
    } else if planes * oh * ow > 0 && (ih == 0 || iw == 0) {
        r == Err::<Tensor<H>, UpscaleError>(UpscaleError::EmptyImage)
    } else {
        &&& r is Ok
        &&& r->Ok_0.wf()
        &&& r->Ok_0@.id == id
        &&& r->Ok_0@.shape == upscaled_shape(s, oh, ow)
        &&& r->Ok_0@.data == nearest(x@.data, planes, ih as nat, iw as nat, oh as nat, ow as nat)
        &&& r->Ok_0.recorded() == if H::records() {
            x.recorded().push(
                BackwardOp::Upscale {
                    input: x@.id,
                    result: id,
                    planes: planes as usize,
                    ih,
                    iw,
                    oh,
                    ow,
                },
            )
        } else {
            x.recorded()
        }
    }
}

/// Upscales the images of `x` to `oh` × `ow` by nearest neighbour, keeping the leading
/// dimensions. On a traced tensor the tape moves to the result with one more step recorded.
pub fn upscale_to<H: TapeHolder>(x: Tensor<H>, oh: usize, ow: usize, ids: &mut TensorIds) -> (r:
    Result<Tensor<H>, UpscaleError>)
    requires
        x.wf(),
        old(ids)@ < u64::MAX,
    ensures
        upscale_outcome(x, oh, ow, old(ids)@ as u64, r),
        final(ids)@ == if r is Ok {
            old(ids)@ + 1
        } else {
            old(ids)@
        },
{
    let ghost xs = x;
    let (id, shape, data, tape) = x.into_parts();
    let rank = shape.len();
    if !(rank == 3 || rank == 4) {
        return Err(UpscaleError::Rank);
    }
    let ih = shape[rank - 2];
    let iw = shape[rank - 1];
    let mut lead = shape.clone();
    lead.pop();
    lead.pop();
    assert(lead@ =~= shape@.take(rank - 2));
    let mut out_shape = lead.clone();
    out_shape.push(oh);
    out_shape.push(ow);
    assert(out_shape@ =~= upscaled_shape(shape@, oh, ow));
    let out_len = match checked_size(&out_shape) {
        Some(n) => n,
        None => return Err(UpscaleError::TooLarge),
    };
    proof {
        lemma_fit_reduced(shape@);
        lemma_fit_reduced(shape@.drop_last());
        assert(shape@.drop_last().drop_last() =~= lead@);
        lemma_size_two(shape@);
        lemma_size_two(out_shape@);
        assert(out_shape@.take(out_shape@.len() - 2) =~= lead@);
    }
    let planes = match checked_size(&lead) {
        Some(n) => n,
        None => {
            assert(false);
            0
        },
    };
    if out_len > 0 && (ih == 0 || iw == 0) {
        return Err(UpscaleError::EmptyImage);
    }
    let out = nearest_buffer(&data, planes, ih, iw, oh, ow);
    let new_id = ids.fresh();
    let mut tape = tape;
    tape.add_operation(BackwardOp::Upscale { input: id, result: new_id, planes, ih, iw, oh, ow });
    Ok(Tensor::from_parts(new_id, out_shape, out, tape))
}

/// Upscales images to a fixed `height` × `width`.
#[derive(Debug, Clone, Copy)]
pub struct Upscale2D {
    pub height: usize,
    pub width: usize,
}

impl Upscale2D {
    /// A square target: the width is the height.
    pub fn new(height: usize) -> (r: Upscale2D)
        ensures
            r.height == height,
            r.width == height,
    {
        Upscale2D { height, width: height }
    }

    /// A target of `height` × `width`.
    pub fn rect(height: usize, width: usize) -> (r: Upscale2D)
        ensures
            r.height == height,
            r.width == width,
    {
        Upscale2D { height, width }
    }

    /// Upscales C × H × W (or B × C × H × W) to C × height × width (or B × C × height × width).
    pub fn try_forward<H: TapeHolder>(&self, x: Tensor<H>, ids: &mut TensorIds) -> (r: Result<
        Tensor<H>,
        UpscaleError,
    >)
        requires
            x.wf(),
            old(ids)@ < u64::MAX,
        ensures
            upscale_outcome(x, self.height, self.width, old(ids)@ as u64, r),
            final(ids)@ == if r is Ok {
                old(ids)@ + 1
            } else {
                old(ids)@
            },
    {
        upscale_to(x, self.height, self.width, ids)
    }
}

/// Upscales images by whole factors: `height` times taller and `width` times wider.
#[derive(Debug, Clone, Copy)]
pub struct Upscale2DBy {
    pub height: usize,
    pub width: usize,
}

impl Upscale2DBy {
    /// The same factor in both directions.
    pub fn new(factor: usize) -> (r: Upscale2DBy)
        ensures
            r.height == factor,
            r.width == factor,
    {
        Upscale2DBy { height: factor, width: factor }
    }

    /// Factors `height` and `width`.
    pub fn rect(height: usize, width: usize) -> (r: Upscale2DBy)
        ensures
            r.height == height,
            r.width == width,
    {
        Upscale2DBy { height, width }
    }

    /// Upscales C × H × W (or B × C × H × W) to C × (H·height) × (W·width) (or with B leading);
    /// `TooLarge` when a scaled side does not fit in `usize`.
    pub fn try_forward<H: TapeHolder>(&self, x: Tensor<H>, ids: &mut TensorIds) -> (r: Result<
        Tensor<H>,
        UpscaleError,
    >)
        requires
            x.wf(),
            old(ids)@ < u64::MAX,
        ensures
            ({
                let s = x@.shape;
                if !(s.len() == 3 || s.len() == 4) {
                    r == Err::<Tensor<H>, UpscaleError>(UpscaleError::Rank)
                } else {
                    let oh = s[s.len() - 2] * self.height;
                    let ow = s[s.len() - 1] * self.width;
                    if oh > usize::MAX || ow > usize::MAX {
                        r == Err::<Tensor<H>, UpscaleError>(UpscaleError::TooLarge)
                    } else {
                        upscale_outcome(x, oh as usize, ow as usize, old(ids)@ as u64, r)
                    }
                }
            }),
            final(ids)@ == if r is Ok {
                old(ids)@ + 1
            } else {
                old(ids)@
            },
    {
        let shape = x.shape();
        let rank = shape.len();
        if !(rank == 3 || rank == 4) {
            return Err(UpscaleError::Rank);
        }
        let oh = match shape[rank - 2].checked_mul(self.height) {
            Some(n) => n,
            None => return Err(UpscaleError::TooLarge),
        };
        let ow = match shape[rank - 1].checked_mul(self.width) {
            Some(n) => n,
            None => return Err(UpscaleError::TooLarge),
        };
        upscale_to(x, oh, ow, ids)
    }
}

} // verus!
