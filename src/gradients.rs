use vstd::prelude::*;

verus! {

/// Element arithmetic of every tensor: 64-bit integers whose addition wraps on overflow.
pub open spec fn acc(a: i64, b: i64) -> i64 {
    a.wrapping_add(b)
}

/// `base` with `delta` added element by element.
pub open spec fn add_seqs(base: Seq<i64>, delta: Seq<i64>) -> Seq<i64> {
    Seq::new(base.len(), |i: int| acc(base[i], delta[i]))
}

/// A buffer of `n` zeros.
pub open spec fn zeros(n: nat) -> Seq<i64> {
    Seq::new(n, |i: int| 0i64)
}

/// The buffer that an operation sees for `id` when it expects `n` elements: the stored one when
/// its length is `n`, a zero-filled one when none is stored, nothing on a length mismatch.
pub open spec fn buffer_for(g: Map<u64, Seq<i64>>, id: u64, n: nat) -> Option<Seq<i64>> {
    if g.contains_key(id) {
        if g[id].len() == n {
            Some(g[id])
        } else {
            None
        }
    } else {
        Some(zeros(n))
    }
}

/// The store after adding `delta` into the buffer of `id`, or nothing on a length mismatch.
pub open spec fn accumulate(g: Map<u64, Seq<i64>>, id: u64, delta: Seq<i64>) -> Option<
    Map<u64, Seq<i64>>,
> {
    match buffer_for(g, id, delta.len()) {
        Some(b) => Some(g.insert(id, add_seqs(b, delta))),
        None => None,
    }
}

/// A gradient buffer was asked for with a length other than the one it holds.
#[derive(Debug, Clone, Copy, PartialEq, Eq)]
pub struct ShapeMismatch {
    pub id: u64,
}

/// Gradient buffers keyed by tensor id.
pub struct Gradients {
    ids: Vec<u64>,
    bufs: Vec<Vec<i64>>,
}

impl View for Gradients {
    type V = Map<u64, Seq<i64>>;

    closed spec fn view(&self) -> Map<u64, Seq<i64>> {
        Map::new(|k: u64| self.ids@.contains(k), |k: u64| self.bufs@[self.ids@.index_of(k)]@)
    }
}

/// `base` with `delta` added element by element.
pub fn add_buffers(base: &Vec<i64>, delta: &Vec<i64>) -> (r: Vec<i64>)
    requires
        base@.len() == delta@.len(),
    ensures
        r@ == add_seqs(base@, delta@),
{
    let mut r: Vec<i64> = Vec::new();
    let mut i: usize = 0;
    while i < base.len()
        invariant
            i <= base@.len(),
            base@.len() == delta@.len(),
            r@ == add_seqs(base@, delta@).take(i as int),
        decreases base@.len() - i,
    {
        r.push(base[i].wrapping_add(delta[i]));
        i = i + 1;
        assert(r@ =~= add_seqs(base@, delta@).take(i as int));
    }
    assert(r@ =~= add_seqs(base@, delta@));
    r
}

/// A buffer of `n` zeros.
pub fn zero_buffer(n: usize) -> (r: Vec<i64>)
    ensures
        r@ == zeros(n as nat),
{
    let mut r: Vec<i64> = Vec::new();
    let mut i: usize = 0;
    while i < n
        invariant
            i <= n,
            r@ == zeros(i as nat),
        decreases n - i,
    {
        r.push(0);
        i = i + 1;
        assert(r@ =~= zeros(i as nat));
    }
    r
}

impl Gradients {
    pub closed spec fn wf(&self) -> bool {
        &&& self.ids@.len() == self.bufs@.len()
        &&& self.ids@.no_duplicates()
    }

    /// An empty store.
    pub fn new() -> (r: Gradients)
        ensures
            r.wf(),
            r@ == Map::<u64, Seq<i64>>::empty(),
    {
        let r = Gradients { ids: Vec::new(), bufs: Vec::new() };
        assert(r@ =~= Map::<u64, Seq<i64>>::empty());
        r
    }

    proof fn lemma_index(&self, k: int)
        requires
            self.wf(),
            0 <= k < self.ids@.len(),
        ensures
            self.ids@.index_of(self.ids@[k]) == k,
            self@.contains_key(self.ids@[k]),
            self@[self.ids@[k]] == self.bufs@[k]@,
    {
        assert(self.ids@.contains(self.ids@[k]));
    }

    fn position(&self, id: u64) -> (r: Option<usize>)
        requires
            self.wf(),
        ensures
            match r {
                Some(k) => k < self.ids@.len() && self.ids@[k as int] == id,
                None => !self@.contains_key(id),
            },
    {
        let mut k: usize = 0;
        while k < self.ids.len()
            invariant
                self.wf(),
                k <= self.ids@.len(),
                forall|j: int| 0 <= j < k ==> self.ids@[j] != id,
            decreases self.ids@.len() - k,
        {
            if self.ids[k] == id {
                return Some(k);
            }
            k = k + 1;
        }
        None
    }

    /// The gradient recorded for `id`, if any operation touched it.
    pub fn ref_gradient(&self, id: u64) -> (r: Option<&Vec<i64>>)
        requires
            self.wf(),
        ensures
            match r {
                Some(b) => self@.contains_key(id) && b@ == self@[id],
                None => !self@.contains_key(id),
            },
    {
        match self.position(id) {
            Some(k) => {
                proof {
                    self.lemma_index(k as int);
                }
                Some(&self.bufs[k])
            },
            None => None,
        }
    }

    /// A copy of the buffer that an operation expecting `n` elements sees for `id`.
    pub fn buffer(&self, id: u64, n: usize) -> (r: Result<Vec<i64>, ShapeMismatch>)
        requires
            self.wf(),
        ensures
            match r {
                Ok(b) => buffer_for(self@, id, n as nat) == Some(b@),
                Err(e) => buffer_for(self@, id, n as nat) is None && e.id == id,
            },
    {
        match self.ref_gradient(id) {
            Some(b) => {
                if b.len() == n {
                    Ok(b.clone())
                } else {
                    Err(ShapeMismatch { id })
                }
            },
            None => Ok(zero_buffer(n)),
        }
    }

    /// Stores `buf` as the gradient of `id`, replacing any earlier one.
    pub fn insert(&mut self, id: u64, buf: Vec<i64>)
        requires
            old(self).wf(),
        ensures
            final(self).wf(),
            final(self)@ == old(self)@.insert(id, buf@),
    {
        let ghost buf_view = buf@;
        match self.position(id) {
            Some(k) => {
                proof {
                    self.lemma_index(k as int);
                }
                self.bufs.set(k, buf);
                proof {
                    assert forall|key: u64| #[trigger] self@.contains_key(key) implies self@[key]
                        == old(self)@.insert(id, buf_view)[key] by {
                        let j = self.ids@.index_of(key);
                        assert(self.ids@.contains(key));
                        if key == id {
                            self.lemma_index(k as int);
                        } else {
                            old(self).lemma_index(j);
                        }
                    }
                    assert(self@ =~= old(self)@.insert(id, buf_view));
                }
            },
            None => {
                self.ids.push(id);
                self.bufs.push(buf);
                proof {
                    let n = self.ids@.len() - 1;
                    assert forall|i: int, j: int|
                        0 <= i < self.ids@.len() && 0 <= j < self.ids@.len() && i != j
                        implies self.ids@[i] != self.ids@[j] by {
                        if i == n {
                            assert(old(self).ids@.contains(old(self).ids@[j]));
                        } else if j == n {
                            assert(old(self).ids@.contains(old(self).ids@[i]));
                        }
                    }
                    assert forall|key: u64| #[trigger] self@.contains_key(key) implies self@[key]
                        == old(self)@.insert(id, buf_view)[key] by {
                        let j = self.ids@.index_of(key);
                        assert(self.ids@.contains(key));
                        if key == id {
                            self.lemma_index(n);
                        } else {
                            self.lemma_index(j);
                            old(self).lemma_index(j);
                        }
                    }
                    assert forall|key: u64|
                        old(self)@.insert(id, buf_view).contains_key(key) implies #[trigger] self@.contains_key(
                        key,
                    ) by {
                        if key == id {
                            assert(self.ids@[n] == id);
                        } else {
                            let j = old(self).ids@.index_of(key);
                            assert(old(self).ids@.contains(key));
                            assert(self.ids@[j] == key);
                        }
                    }
                    assert(self@ =~= old(self)@.insert(id, buf_view));
                }
            },
        }
    }

    /// Adds `delta` into the buffer of `id`, which starts as zeros when absent.
    pub fn accumulate(&mut self, id: u64, delta: &Vec<i64>) -> (r: Result<(), ShapeMismatch>)
        requires
            old(self).wf(),
        ensures
            final(self).wf(),
            match accumulate(old(self)@, id, delta@) {
                Some(g) => r is Ok && final(self)@ == g,
                None => r == Err::<(), ShapeMismatch>(ShapeMismatch { id }) && final(self)@ == old(
                    self,
                )@,
            },
    {
        let base = self.buffer(id, delta.len())?;
        let sum = add_buffers(&base, delta);
        self.insert(id, sum);
        Ok(())
    }
}

} // verus!
