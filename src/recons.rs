use vstd::prelude::*;

verus! {

/// Averages several weighted reconstructions, each leaving out one of the
/// sample subsets.
pub struct BaggingPoissonReconstruction {
    pub iterations: usize,
    pub nb_buffers: usize,
}

/// Reconstruction whose terms are weighted by inverse variance estimates.
pub struct WeightedPoissonReconstruction {
    pub iterations: usize,
    /// The sample subsets to read, when restricted.
    pub buffers_id: Option<Vec<usize>>,
}

/// Reconstruction whose terms all weigh the same.
pub struct UniformPoissonReconstruction {
    pub iterations: usize,
}

/// The indices `0, 1, ..., n - 1` without `excluded`, in increasing order.
pub open spec fn indices_without(n: nat, excluded: int) -> Seq<usize>
    decreases n,
{
    if n == 0 {
        Seq::empty()
    } else if n - 1 == excluded {
        indices_without((n - 1) as nat, excluded)
    } else {
        indices_without((n - 1) as nat, excluded).push((n - 1) as usize)
    }
}

impl BaggingPoissonReconstruction {
    /// Bagging needs one estimate per subset.
    pub fn need_variance_estimates(&self) -> (r: Option<usize>)
        ensures
            r == Some(self.nb_buffers),
    {
        Some(self.nb_buffers)
    }

    /// The subsets that the reconstruction numbered `n_recons` uses: all of
    /// them but the one with that number.
    pub fn leave_one_out(&self, n_recons: usize) -> (r: Vec<usize>)
        ensures
            r@ == indices_without(self.nb_buffers as nat, n_recons as int),
    {
        let mut out: Vec<usize> = Vec::new();
        let mut i: usize = 0;
        while i < self.nb_buffers
            invariant
                i <= self.nb_buffers,
                out@ == indices_without(i as nat, n_recons as int),
            decreases self.nb_buffers - i,
        {
            if i != n_recons {
                out.push(i);
            }
            i = i + 1;
        }
        out
    }

    /// One weighted reconstruction per left-out subset, in the order of the
    /// subsets. Bagging needs at least two subsets.
    pub fn reconstructions(&self) -> (r: Vec<WeightedPoissonReconstruction>)
        requires
            self.nb_buffers >= 2,
        ensures
            r@.len() == self.nb_buffers,
            forall|k: int|
                0 <= k < r@.len() ==> r@[k].iterations == self.iterations
                    && #[trigger] r@[k].selected() == Some(indices_without(
                    self.nb_buffers as nat,
                    k,
                )),
    {
        let mut out: Vec<WeightedPoissonReconstruction> = Vec::new();
        let mut n: usize = 0;
        while n < self.nb_buffers
            invariant
                n <= self.nb_buffers,
                out@.len() == n,
                forall|k: int|
                    0 <= k < n ==> out@[k].iterations == self.iterations
                        && #[trigger] out@[k].selected() == Some(indices_without(
                        self.nb_buffers as nat,
                        k,
                    )),
            decreases self.nb_buffers - n,
        {
            let ids = self.leave_one_out(n);
            let w = WeightedPoissonReconstruction::new(self.iterations).restrict_buffers(ids);
            out.push(w);
            n = n + 1;
        }
        out
    }
}

impl WeightedPoissonReconstruction {
    /// The subsets chosen by `restrict_buffers`, if any.
    pub open spec fn selected(&self) -> Option<Seq<usize>> {
        match self.buffers_id {
            Some(v) => Some(v@),
            None => None,
        }
    }

    pub fn new(iterations: usize) -> (r: WeightedPoissonReconstruction)
        ensures
            r.iterations == iterations,
            r.selected() is None,
    {
        WeightedPoissonReconstruction { iterations, buffers_id: None }
    }

    /// Restricts the variance estimate to the given sample subsets.
    pub fn restrict_buffers(self, buffer_id: Vec<usize>) -> (r: WeightedPoissonReconstruction)
        ensures
            r.iterations == self.iterations,
            r.selected() == Some(buffer_id@),
    {
        let mut s = self;
        s.buffers_id = Some(buffer_id);
        s
    }

    /// Number of sample subsets that the variance estimate reads: two when
    /// none were chosen, else as many as were chosen.
    pub fn need_variance_estimates(&self) -> (r: Option<usize>)
        ensures
            self.selected() is None ==> r == Some(2usize),
            self.selected() is Some ==> r == Some(self.selected()->0.len() as usize),
    {
        match &self.buffers_id {
            None => Some(2),
            Some(v) => Some(v.len()),
        }
    }

    /// The indices of the sample subsets whose mean and variance feed the
    /// reconstruction: `0 .. need_variance_estimates()` when none were
    /// chosen, else the chosen ones in the order given.
    pub fn selected_buffers(&self) -> (r: Vec<usize>)
        ensures
            self.selected() is None ==> r@ == seq![0usize, 1usize],
            self.selected() is Some ==> r@ == self.selected()->0,
    {
        match &self.buffers_id {
            None => {
                let mut v: Vec<usize> = Vec::new();
                v.push(0);
                v.push(1);
                proof {
                    assert(v@ =~= seq![0usize, 1usize]);
                }
                v
            },
            Some(v) => v.clone(),
        }
    }
}

impl UniformPoissonReconstruction {
    /// The uniform reconstruction reads no variance estimate.
    pub fn need_variance_estimates(&self) -> (r: Option<usize>)
        ensures
            r is None,
    {
        None
    }
}

} // verus!
