use vstd::prelude::*;
use crate::gradients::{accumulate, buffer_for, Gradients, ShapeMismatch};
use crate::upscale::{scatter, scatter_buffer};

verus! {

/// One recorded backward step: which gradient it reads and which it adds into.
#[derive(Debug, Clone, Copy, PartialEq, Eq)]
pub enum BackwardOp {
    /// `result` (`out_len` elements) holds the sums of each run of `width` consecutive elements
    /// of `input` (`in_len` elements); every input element receives its run's gradient.
    SumLastDim { input: u64, result: u64, width: usize, in_len: usize, out_len: usize },
    /// `result` is the element-wise sum of `lhs` and `rhs` (`len` elements each); both operands
    /// receive the result's gradient.
    Add { lhs: u64, rhs: u64, result: u64, len: usize },
    /// `result` holds `input`, `planes` images of `ih` × `iw`, upscaled by nearest neighbour to
    /// `oh` × `ow`; every input element receives the gradients of the outputs that read it.
    Upscale { input: u64, result: u64, planes: usize, ih: usize, iw: usize, oh: usize, ow: usize },
}

/// The upscale's sizes fit in `usize`, and an image that is read is not empty.
pub open spec fn upscale_fits(planes: nat, ih: nat, iw: nat, oh: nat, ow: nat) -> bool {
    &&& planes * ih <= usize::MAX
    &&& planes * ih * iw <= usize::MAX
    &&& planes * oh <= usize::MAX
    &&& planes * oh * ow <= usize::MAX
    &&& (planes * oh * ow == 0 || (ih > 0 && iw > 0))
}

/// The reduction's sizes agree: every input position maps to a result position.
pub open spec fn reduction_fits(width: nat, in_len: nat, out_len: nat) -> bool {
    if width == 0 {
        in_len == 0
    } else {
        in_len == 0 || (in_len - 1) as nat / width < out_len
    }
}

/// A result gradient spread back over `n` input positions, run by run.
pub open spec fn broadcast(rg: Seq<i64>, width: nat, n: nat) -> Seq<i64> {
    Seq::new(n, |i: int| rg[i / width as int])
}

/// The store after one backward step, or nothing on a size mismatch.
pub open spec fn apply(g: Map<u64, Seq<i64>>, op: BackwardOp) -> Option<Map<u64, Seq<i64>>> {
    match op {
        BackwardOp::SumLastDim { input, result, width, in_len, out_len } => {
            if !reduction_fits(width as nat, in_len as nat, out_len as nat) {
                None
            } else {
                match buffer_for(g, result, out_len as nat) {
                    Some(rg) => accumulate(g, input, broadcast(rg, width as nat, in_len as nat)),
                    None => None,
                }
            }
        },
        BackwardOp::Add { lhs, rhs, result, len } => {
            match buffer_for(g, result, len as nat) {
                Some(rg) => match accumulate(g, lhs, rg) {
                    Some(g1) => accumulate(g1, rhs, rg),
                    None => None,
                },
                None => None,
            }
        },
        BackwardOp::Upscale { input, result, planes, ih, iw, oh, ow } => {
            if !upscale_fits(planes as nat, ih as nat, iw as nat, oh as nat, ow as nat) {
                None
            } else {
                let out_len = (planes * oh * ow) as nat;
                match buffer_for(g, result, out_len) {
                    Some(rg) => match buffer_for(g, input, (planes * ih * iw) as nat) {
                        Some(b) => Some(
                            g.insert(input, scatter(b, rg, ih as int, iw as int, oh as int, ow as int, out_len)),
                        ),
                        None => None,
                    },
                    None => None,
                }
            }
        },
    }
}

/// The store after replaying `ops` from the last recorded to the first.
pub open spec fn replay(g: Map<u64, Seq<i64>>, ops: Seq<BackwardOp>) -> Option<
    Map<u64, Seq<i64>>,
>
    decreases ops.len(),
{
    if ops.len() == 0 {
        Some(g)
    } else {
        match apply(g, ops.last()) {
            Some(g1) => replay(g1, ops.drop_last()),
            None => None,
        }
    }
}

fn broadcast_buffer(rg: &Vec<i64>, width: usize, n: usize) -> (r: Vec<i64>)
    requires
        width > 0,
        reduction_fits(width as nat, n as nat, rg@.len()),
    ensures
        r@ == broadcast(rg@, width as nat, n as nat),
{
    let mut r: Vec<i64> = Vec::new();
    let mut i: usize = 0;
    while i < n
        invariant
            i <= n,
            width > 0,
            reduction_fits(width as nat, n as nat, rg@.len()),
            r@ == broadcast(rg@, width as nat, n as nat).take(i as int),
        decreases n - i,
    {
        proof {
            vstd::arithmetic::div_mod::lemma_div_is_ordered(i as int, (n - 1) as int, width as int);
        }
        r.push(rg[i / width]);
        i = i + 1;
        assert(r@ =~= broadcast(rg@, width as nat, n as nat).take(i as int));
    }
    assert(r@ =~= broadcast(rg@, width as nat, n as nat));
    r
}

/// Runs one backward step against `grads`.
pub fn apply_op(grads: &mut Gradients, op: BackwardOp) -> (r: Result<(), ShapeMismatch>)
    requires
        old(grads).wf(),
    ensures
        final(grads).wf(),
        match apply(old(grads)@, op) {
            Some(g) => r is Ok && final(grads)@ == g,
            None => r is Err,
        },
{
    match op {
        BackwardOp::SumLastDim { input, result, width, in_len, out_len } => {
            let fits = if width == 0 {
                in_len == 0
            } else {
                in_len == 0 || (in_len - 1) / width < out_len
            };
            if !fits {
                return Err(ShapeMismatch { id: input });
            }
            let rg = grads.buffer(result, out_len)?;
            if width == 0 {
                let empty: Vec<i64> = Vec::new();
                assert(empty@ =~= broadcast(rg@, width as nat, in_len as nat));
                grads.accumulate(input, &empty)
            } else {
                let delta = broadcast_buffer(&rg, width, in_len);
                grads.accumulate(input, &delta)
            }
        },
        BackwardOp::Add { lhs, rhs, result, len } => {
            let rg = grads.buffer(result, len)?;
            grads.accumulate(lhs, &rg)?;
            grads.accumulate(rhs, &rg)
        },
        BackwardOp::Upscale { input, result, planes, ih, iw, oh, ow } => {
            let in_len = match planes.checked_mul(ih) {
                Some(a) => match a.checked_mul(iw) {
                    Some(n) => n,
                    None => return Err(ShapeMismatch { id: input }),
                },
                None => return Err(ShapeMismatch { id: input }),
            };
            let out_len = match planes.checked_mul(oh) {
                Some(a) => match a.checked_mul(ow) {
                    Some(n) => n,
                    None => return Err(ShapeMismatch { id: input }),
                },
                None => return Err(ShapeMismatch { id: input }),
            };
            if out_len != 0 && (ih == 0 || iw == 0) {
                return Err(ShapeMismatch { id: input });
            }
            let rg = grads.buffer(result, out_len)?;
            let base = grads.buffer(input, in_len)?;
            let b = scatter_buffer(base, &rg, planes, ih, iw, oh, ow);
            grads.insert(input, b);
            Ok(())
        },
    }
}

/// Backward steps in the order they were recorded.
#[derive(Debug)]
pub struct GradientTape {
    ops: Vec<BackwardOp>,
}

impl View for GradientTape {
    type V = Seq<BackwardOp>;

    closed spec fn view(&self) -> Seq<BackwardOp> {
        self.ops@
    }
}

impl GradientTape {
    /// An empty tape.
    pub fn new() -> (r: GradientTape)
        ensures
            r@ == Seq::<BackwardOp>::empty(),
    {
        GradientTape { ops: Vec::new() }
    }

    /// Appends `op` after every step recorded so far.
    pub fn add_operation(&mut self, op: BackwardOp)
        ensures
            final(self)@ == old(self)@.push(op),
    {
        self.ops.push(op);
    }

    /// How many steps are recorded.
    pub fn len(&self) -> (r: usize)
        ensures
            r == self@.len(),
    {
        self.ops.len()
    }

    /// Replays the recorded steps against `grads`, last recorded first, consuming the tape.
    pub fn execute(self, grads: &mut Gradients) -> (r: Result<(), ShapeMismatch>)
        requires
            old(grads).wf(),
        ensures
            final(grads).wf(),
            match replay(old(grads)@, self@) {
                Some(g) => r is Ok && final(grads)@ == g,
                None => r is Err,
            },
    {
        let mut ops = self.ops;
        while ops.len() > 0
            invariant
                grads.wf(),
                replay(old(grads)@, self@) == replay(grads@, ops@),
            decreases ops@.len(),
        {
            let ghost before = ops@;
            let op = ops.pop().unwrap();
            assert(ops@ == before.drop_last() && op == before.last());
            apply_op(grads, op)?;
        }
        Ok(())
    }
}

/// Decides whether operations on a tensor are recorded.
pub trait TapeHolder: Sized {
    /// Whether this holder records operations at all.
    spec fn records() -> bool;

    /// The steps recorded so far.
    spec fn recorded(&self) -> Seq<BackwardOp>;

    /// Records `op` when this holder keeps a tape; drops it otherwise.
    fn add_operation(&mut self, op: BackwardOp)
        ensures
            final(self).recorded() == if Self::records() {
                old(self).recorded().push(op)
            } else {
                old(self).recorded()
            },
    ;

    /// How many steps are recorded.
    fn recorded_len(&self) -> (r: usize)
        ensures
            r == self.recorded().len(),
    ;
}

/// Holds a tape: each operation is appended to it.
#[derive(Debug)]
pub struct WithTape {
    tape: GradientTape,
}

/// Holds nothing: each operation is dropped unexecuted.
#[derive(Debug, Clone, Copy)]
pub struct NoTape;

impl WithTape {
    /// A holder with an empty tape.
    pub fn new() -> (r: WithTape)
        ensures
            r.recorded() == Seq::<BackwardOp>::empty(),
    {
        WithTape { tape: GradientTape::new() }
    }

    /// Gives up the tape.
    pub fn into_tape(self) -> (r: GradientTape)
        ensures
            r@ == self.recorded(),
    {
        self.tape
    }
}

impl TapeHolder for WithTape {
    open spec fn records() -> bool {
        true
    }

    closed spec fn recorded(&self) -> Seq<BackwardOp> {
        self.tape@
    }

    fn add_operation(&mut self, op: BackwardOp) {
        self.tape.add_operation(op)
    }

    fn recorded_len(&self) -> (r: usize) {
        self.tape.len()
    }
}

impl TapeHolder for NoTape {
    open spec fn records() -> bool {
        false
    }

    open spec fn recorded(&self) -> Seq<BackwardOp> {
        Seq::empty()
    }

    fn add_operation(&mut self, op: BackwardOp) {
    }

    fn recorded_len(&self) -> (r: usize) {
        0
    }
}

} // verus!
