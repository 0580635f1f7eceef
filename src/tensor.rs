use vstd::prelude::*;
use crate::gradients::{add_buffers, add_seqs, acc, Gradients, ShapeMismatch};
use crate::tape::{replay, BackwardOp, NoTape, TapeHolder, WithTape};

verus! {

/// Number of elements of a tensor of shape `shape`.
pub open spec fn size(shape: Seq<usize>) -> nat
    decreases shape.len(),
{
    if shape.len() == 0 {
        1
    } else {
        size(shape.drop_last()) * (shape.last() as nat)
    }
}

/// Every leading part of `shape` has a size that fits in `usize`.
pub open spec fn sizes_fit(shape: Seq<usize>) -> bool {
    forall|k: int| 0 <= k <= shape.len() ==> #[trigger] size(shape.take(k)) <= usize::MAX
}

/// The shape left after reducing the last dimension; a scalar stays a scalar.
pub open spec fn reduced_shape(shape: Seq<usize>) -> Seq<usize> {
    if shape.len() == 0 {
        shape
    } else {
        shape.drop_last()
    }
}

/// The length of the reduced dimension; one for a scalar.
pub open spec fn last_width(shape: Seq<usize>) -> nat {
    if shape.len() == 0 {
        1
    } else {
        shape.last() as nat
    }
}

/// The sum of `s`, with the element addition.
pub open spec fn total(s: Seq<i64>) -> i64
    decreases s.len(),
{
    if s.len() == 0 {
        0
    } else {
        acc(total(s.drop_last()), s.last())
    }
}

/// The sums of each run of `width` consecutive elements of `data`, `n` runs.
pub open spec fn reduce_runs(data: Seq<i64>, width: nat, n: nat) -> Seq<i64> {
    Seq::new(n, |j: int| total(data.subrange(j * width, j * width + width)))
}

/// Mints tensor ids: each one is handed out once.
pub struct TensorIds {
    next: u64,
}

impl View for TensorIds {
    type V = nat;

    /// The next id to be handed out; every id below it is taken.
    closed spec fn view(&self) -> nat {
        self.next as nat
    }
}

impl TensorIds {
    /// A source that has handed out no id yet.
    pub fn new() -> (r: TensorIds)
        ensures
            r@ == 0,
    {
        TensorIds { next: 0 }
    }

    /// A fresh id, never handed out before by this source.
    pub fn fresh(&mut self) -> (r: u64)
        requires
            old(self)@ < u64::MAX,
        ensures
            r == old(self)@,
            final(self)@ == old(self)@ + 1,
    {
        let r = self.next;
        self.next = self.next + 1;
        r
    }
}

/// What a tensor holds, apart from its tape.
pub ghost struct TensorView {
    pub id: u64,
    pub shape: Seq<usize>,
    pub data: Seq<i64>,
}

/// A dense tensor of 64-bit integers with an id, a shape, and a tape holder.
pub struct Tensor<H> {
    id: u64,
    shape: Vec<usize>,
    data: Vec<i64>,
    tape: H,
}

impl<H> View for Tensor<H> {
    type V = TensorView;

    closed spec fn view(&self) -> TensorView {
        TensorView { id: self.id, shape: self.shape@, data: self.data@ }
    }
}

/// The size of `shape`, when every leading part of it fits in `usize`.
pub fn checked_size(shape: &Vec<usize>) -> (r: Option<usize>)
    ensures
        match r {
            Some(n) => sizes_fit(shape@) && n == size(shape@),
            None => !sizes_fit(shape@),
        },
{
    let mut prod: usize = 1;
    let mut i: usize = 0;
    assert(shape@.take(0) =~= Seq::<usize>::empty());
    while i < shape.len()
        invariant
            i <= shape@.len(),
            prod == size(shape@.take(i as int)),
            forall|k: int| 0 <= k <= i ==> #[trigger] size(shape@.take(k)) <= usize::MAX,
        decreases shape@.len() - i,
    {
        assert(shape@.take(i + 1).drop_last() =~= shape@.take(i as int));
        match prod.checked_mul(shape[i]) {
            Some(p) => {
                prod = p;
            },
            None => {
                assert(size(shape@.take(i + 1)) > usize::MAX);
                return None;
            },
        }
        i = i + 1;
    }
    assert(shape@.take(shape@.len() as int) =~= shape@);
    Some(prod)
}

proof fn lemma_size_split(shape: Seq<usize>)
    ensures
        size(shape) == size(reduced_shape(shape)) * last_width(shape),
{
}

pub(crate) proof fn lemma_fit_reduced(shape: Seq<usize>)
    requires
        sizes_fit(shape),
    ensures
        sizes_fit(reduced_shape(shape)),
{
    if shape.len() > 0 {
        assert forall|k: int| 0 <= k <= shape.drop_last().len() implies #[trigger] size(
            shape.drop_last().take(k),
        ) <= usize::MAX by {
            assert(shape.drop_last().take(k) =~= shape.take(k));
        }
    }
}

impl<H: TapeHolder> Tensor<H> {
    /// The data length matches the shape, and every leading part of the shape fits in `usize`.
    pub open spec fn wf(&self) -> bool {
        &&& sizes_fit(self@.shape)
        &&& self@.data.len() == size(self@.shape)
    }

    /// The steps recorded on this tensor's tape.
    pub closed spec fn recorded(&self) -> Seq<BackwardOp> {
        self.tape.recorded()
    }

    /// Splits the tensor into its id, shape, data and tape holder.
    pub(crate) fn into_parts(self) -> (r: (u64, Vec<usize>, Vec<i64>, H))
        ensures
            r.0 == self@.id,
            r.1@ == self@.shape,
            r.2@ == self@.data,
            r.3.recorded() == self.recorded(),
    {
        (self.id, self.shape, self.data, self.tape)
    }

    /// Puts a tensor together from its parts.
    pub(crate) fn from_parts(id: u64, shape: Vec<usize>, data: Vec<i64>, tape: H) -> (r: Tensor<H>)
        ensures
            r@ == (TensorView { id, shape: shape@, data: data@ }),
            r.recorded() == tape.recorded(),
    {
        Tensor { id, shape, data, tape }
    }

    /// How many steps this tensor's tape holds.
    pub fn tape_len(&self) -> (r: usize)
        ensures
            r == self.recorded().len(),
    {
        self.tape.recorded_len()
    }

    pub fn id(&self) -> (r: u64)
        ensures
            r == self@.id,
    {
        self.id
    }

    pub fn shape(&self) -> (r: &Vec<usize>)
        ensures
            r@ == self@.shape,
    {
        &self.shape
    }

    pub fn data(&self) -> (r: &Vec<i64>)
        ensures
            r@ == self@.data,
    {
        &self.data
    }

    /// Reduces the last dimension by summing its values; a scalar comes back unchanged.
    /// On a traced tensor the tape moves to the result with one more step recorded.
    pub fn sum_last_dim(self, ids: &mut TensorIds) -> (r: Tensor<H>)
        requires
            self.wf(),
            old(ids)@ < u64::MAX,
        ensures
            r.wf(),
            r@.id == old(ids)@,
            final(ids)@ == old(ids)@ + 1,
            r@.shape == reduced_shape(self@.shape),
            r@.data == reduce_runs(self@.data, last_width(self@.shape), size(r@.shape)),
            r.recorded() == if H::records() {
                self.recorded().push(
                    BackwardOp::SumLastDim {
                        input: self@.id,
                        result: r@.id,
                        width: last_width(self@.shape) as usize,
                        in_len: self@.data.len() as usize,
                        out_len: r@.data.len() as usize,
                    },
                )
            } else {
                self.recorded()
            },
    {
        let Tensor { id, shape, data, tape } = self;
        let ghost s = shape@;
        let mut out_shape = shape;
        let width: usize = if out_shape.len() == 0 {
            1
        } else {
            out_shape.pop().unwrap()
        };
        assert(out_shape@ == reduced_shape(s));
        proof {
            lemma_size_split(s);
            lemma_fit_reduced(s);
        }
        let out_len = match checked_size(&out_shape) {
            Some(n) => n,
            None => {
                assert(false);
                0
            },
        };
        let in_len = data.len();
        let mut out: Vec<i64> = Vec::new();
        let mut j: usize = 0;
        while j < out_len
            invariant
                j <= out_len,
                in_len == data@.len(),
                data@.len() == out_len * width,
                out@ == reduce_runs(data@, width as nat, out_len as nat).take(j as int),
            decreases out_len - j,
        {
            assert(j * width + width <= out_len * width) by (nonlinear_arith)
                requires
                    j < out_len,
            ;
            let start: usize = j * width;
            let mut sum: i64 = 0;
            let mut k: usize = 0;
            assert(data@.subrange(start as int, start as int) =~= Seq::<i64>::empty());
            while k < width
                invariant
                    k <= width,
                    start + width <= data@.len(),
                    in_len == data@.len(),
                    sum == total(data@.subrange(start as int, start + k)),
                decreases width - k,
            {
                assert(data@.subrange(start as int, start + k + 1).drop_last() =~= data@.subrange(
                    start as int,
                    start + k,
                ));
                sum = sum.wrapping_add(data[start + k]);
                k = k + 1;
            }
            out.push(sum);
            j = j + 1;
            assert(out@ =~= reduce_runs(data@, width as nat, out_len as nat).take(j as int));
        }
        assert(out@ =~= reduce_runs(data@, width as nat, out_len as nat));
        let new_id = ids.fresh();
        let mut tape = tape;
        tape.add_operation(
            BackwardOp::SumLastDim {
                input: id,
                result: new_id,
                width,
                in_len,
                out_len,
            },
        );
        Tensor { id: new_id, shape: out_shape, data: out, tape }
    }

    /// The element-wise sum of `self` and `rhs`, which have one shape. On a traced tensor the
    /// tape moves to the result with one more step recorded, which feeds both operands.
    pub fn add(self, rhs: &Tensor<NoTape>, ids: &mut TensorIds) -> (r: Tensor<H>)
        requires
            self.wf(),
            rhs.wf(),
            self@.shape == rhs@.shape,
            old(ids)@ < u64::MAX,
        ensures
            r.wf(),
            r@.id == old(ids)@,
            final(ids)@ == old(ids)@ + 1,
            r@.shape == self@.shape,
            r@.data == add_seqs(self@.data, rhs@.data),
            r.recorded() == if H::records() {
                self.recorded().push(
                    BackwardOp::Add {
                        lhs: self@.id,
                        rhs: rhs@.id,
                        result: r@.id,
                        len: self@.data.len() as usize,
                    },
                )
            } else {
                self.recorded()
            },
    {
        let Tensor { id, shape, data, tape } = self;
        let out = add_buffers(&data, &rhs.data);
        let new_id = ids.fresh();
        let mut tape = tape;
        tape.add_operation(BackwardOp::Add { lhs: id, rhs: rhs.id, result: new_id, len: data.len() });
        Tensor { id: new_id, shape, data: out, tape }
    }
}

/// Reduces the last dimension of `t` by summing its values; see [`Tensor::sum_last_dim`].
pub fn sum_last_dim<H: TapeHolder>(t: Tensor<H>, ids: &mut TensorIds) -> (r: Tensor<H>)
    requires
        t.wf(),
        old(ids)@ < u64::MAX,
    ensures
        r.wf(),
        r@.id == old(ids)@,
        final(ids)@ == old(ids)@ + 1,
        r@.shape == reduced_shape(t@.shape),
        r@.data == reduce_runs(t@.data, last_width(t@.shape), size(r@.shape)),
        r.recorded() == if H::records() {
            t.recorded().push(
                BackwardOp::SumLastDim {
                    input: t@.id,
                    result: r@.id,
                    width: last_width(t@.shape) as usize,
                    in_len: t@.data.len() as usize,
                    out_len: r@.data.len() as usize,
                },
            )
        } else {
            t.recorded()
        },
{
    t.sum_last_dim(ids)
}

impl Tensor<NoTape> {
    /// A tensor of shape `shape` holding `data` in row-major order, with a fresh id; nothing
    /// when the data length is not the shape's size or that size does not fit in `usize`.
    pub fn new(shape: Vec<usize>, data: Vec<i64>, ids: &mut TensorIds) -> (r: Option<
        Tensor<NoTape>,
    >)
        requires
            old(ids)@ < u64::MAX,
        ensures
            match r {
                Some(t) => {
                    &&& sizes_fit(shape@) && data@.len() == size(shape@)
                    &&& t.wf()
                    &&& t@ == (TensorView { id: old(ids)@ as u64, shape: shape@, data: data@ })
                    &&& final(ids)@ == old(ids)@ + 1
                },
                None => !(sizes_fit(shape@) && data@.len() == size(shape@)) && final(ids)@ == old(
                    ids,
                )@,
            },
    {
        match checked_size(&shape) {
            Some(n) => {
                if n == data.len() {
                    let id = ids.fresh();
                    Some(Tensor { id, shape, data, tape: NoTape })
                } else {
                    None
                }
            },
            None => None,
        }
    }

    /// An untraced tensor records nothing: whatever chain of operations produced it, its tape
    /// is empty, and replaying it leaves every gradient store as it was, so no id gains a
    /// gradient.
    pub proof fn lemma_no_tape_purity(&self, g: Map<u64, Seq<i64>>)
        ensures
            self.recorded().len() == 0,
            replay(g, self.recorded()) == Some(g),
    {
    }

    /// A copy of `self` with the same id and data and a fresh, empty tape; `self` is untouched.
    pub fn trace(&self) -> (r: Tensor<WithTape>)
        ensures
            r@ == self@,
            r.recorded() == Seq::<BackwardOp>::empty(),
    {
        Tensor { id: self.id, shape: self.shape.clone(), data: self.data.clone(), tape: WithTape::new() }
    }

    /// `self` itself, now holding a fresh, empty tape.
    pub fn traced(self) -> (r: Tensor<WithTape>)
        ensures
            r@ == self@,
            r.recorded() == Seq::<BackwardOp>::empty(),
    {
        Tensor { id: self.id, shape: self.shape, data: self.data, tape: WithTape::new() }
    }
}

/// The store that backward starts from: a unit gradient for the scalar `id`.
pub open spec fn seed(id: u64) -> Map<u64, Seq<i64>> {
    map![id => seq![1i64]]
}

impl Tensor<WithTape> {
    /// Seeds a unit gradient for this scalar and replays its tape, last step first.
    pub fn backward(self) -> (r: Result<Gradients, ShapeMismatch>)
        requires
            self.wf(),
            self@.shape.len() == 0,
        ensures
            match replay(seed(self@.id), self.recorded()) {
                Some(g) => r is Ok && r->Ok_0.wf() && r->Ok_0@ == g,
                None => r is Err,
            },
    {
        let mut grads = Gradients::new();
        let unit = vec![1i64];
        assert(unit@ =~= seq![1i64]);
        grads.insert(self.id, unit);
        assert(grads@ =~= seed(self.id));
        let tape = self.tape.into_tape();
        tape.execute(&mut grads)?;
        Ok(grads)
    }
}

} // verus!
