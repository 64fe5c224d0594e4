use vstd::prelude::*;

verus! {

/// Accepting or rejecting the proposal of a Markov chain sampler.
pub trait SamplerMCMC: Sized {
    /// The chain can take one more accept or reject.
    spec fn can_commit(&self) -> bool;

    /// `next` is the chain `prev` after accepting its proposal.
    spec fn accepted(prev: &Self, next: &Self) -> bool;

    /// `next` is the chain `prev` after rejecting its proposal.
    spec fn rejected(prev: &Self, next: &Self) -> bool;

    fn accept(&mut self)
        requires
            old(self).can_commit(),
        ensures
            Self::accepted(old(self), final(self)),
    ;

    fn reject(&mut self)
        requires
            old(self).can_commit(),
        ensures
            Self::rejected(old(self), final(self)),
    ;
}

/// Where a replay chain's values come from: fresh uniform draws, and
/// perturbations of a value. Any value is accepted from either.
pub trait ValueSource<T> {
    fn fresh(&mut self) -> T;

    fn perturb(&mut self, v: T) -> T;
}

/// One primary-sample coordinate and the time at which it was last set.
#[derive(Clone, Copy, Debug)]
pub struct ReplayValue<T> {
    pub value: T,
    pub modify: usize,
}

/// What a coordinate needs before it can be read.
#[derive(Clone, Copy, Debug, PartialEq, Eq, Structural)]
pub enum ReplayStep {
    /// Storage must grow by one fresh uniform value.
    Extend,
    /// The coordinate is replaced by a fresh uniform value, set at `stamp`.
    Fresh { stamp: usize },
    /// The coordinate is perturbed once by the small-step mutation, set at
    /// `stamp`.
    Mutate { stamp: usize },
    /// The coordinate is current and can be read.
    Ready,
}

/// Primary-sample-space replay chain: lazily grown coordinates with time
/// stamps, large and small steps, and a backup of every coordinate that the
/// current proposal overwrote. The values themselves (uniform draws and
/// their perturbations) come from the caller, step by step through `apply`
/// or from a `ValueSource` through `sample`.
pub struct IndependentSamplerReplay<T> {
    values: Vec<ReplayValue<T>>,
    backup: Vec<(usize, ReplayValue<T>)>,
    time: usize,
    time_large: usize,
    indice: usize,
    large_step: bool,
    start: Ghost<Seq<ReplayValue<T>>>,
}

/// No entry of `backup` is for coordinate `j`.
pub open spec fn untouched<T>(backup: Seq<(usize, ReplayValue<T>)>, j: int) -> bool {
    forall|k: int| 0 <= k < backup.len() ==> (#[trigger] backup[k]).0 != j
}

/// Entry `k` is the first entry of `backup` for coordinate `j`.
pub open spec fn first_entry<T>(backup: Seq<(usize, ReplayValue<T>)>, j: int, k: int) -> bool {
    &&& 0 <= k < backup.len()
    &&& backup[k].0 == j
    &&& forall|m: int| 0 <= m < k ==> (#[trigger] backup[m]).0 != j
}

/// The first entry of `backup` for coordinate `j` saved `v`.
pub open spec fn first_saved<T>(backup: Seq<(usize, ReplayValue<T>)>, j: int, v: ReplayValue<T>) -> bool {
    exists|k: int| #[trigger] first_entry(backup, j, k) && backup[k].1 == v
}

/// The stamp that one step gives a coordinate last set at `m`, which is
/// behind `time`: the current time on a large step, else the time of the last
/// accepted large step if it was set before that, else one more.
pub open spec fn next_stamp(m: usize, time: usize, time_large: usize, large_step: bool) -> usize {
    if large_step {
        time
    } else if m < time_large {
        time_large
    } else {
        (m + 1) as usize
    }
}

/// `added` lists the states that a coordinate went through before each of
/// its steps: each was behind `time`, each step moved the stamp by
/// `next_stamp`, and the last step left it at `last`.
pub open spec fn stamp_chain<T>(
    added: Seq<(usize, ReplayValue<T>)>,
    time: usize,
    time_large: usize,
    large_step: bool,
    last: usize,
) -> bool {
    &&& forall|k: int| 0 <= k < added.len() ==> (#[trigger] added[k]).1.modify < time
    &&& forall|k: int|
        1 <= k < added.len() ==> (#[trigger] added[k]).1.modify == next_stamp(
            added[k - 1].1.modify,
            time,
            time_large,
            large_step,
        )
    &&& added.len() > 0 ==> last == next_stamp(added.last().1.modify, time, time_large, large_step)
}

/// What `sample` leaves behind for coordinate `i`, given the values `vals`
/// and backup `ob` before it, and the values `cur` and backup `nb` after:
/// new backup entries are all for `i` and trace its steps from its first
/// state (the old value, or a fresh one stamped zero) to its stamp now;
/// storage grew only up to `i`, with fresh values stamped zero.
pub open spec fn sampled_trace<T>(
    vals: Seq<ReplayValue<T>>,
    ob: Seq<(usize, ReplayValue<T>)>,
    cur: Seq<ReplayValue<T>>,
    nb: Seq<(usize, ReplayValue<T>)>,
    i: usize,
    time: usize,
    time_large: usize,
    large_step: bool,
) -> bool {
    let added = nb.subrange(ob.len() as int, nb.len() as int);
    &&& ob.len() <= nb.len()
    &&& nb.subrange(0, ob.len() as int) == ob
    &&& forall|k: int| 0 <= k < added.len() ==> (#[trigger] added[k]).0 == i
    &&& i < vals.len() ==> cur.len() == vals.len()
    &&& i >= vals.len() ==> vals.len() <= cur.len() <= i + 1
    &&& forall|j: int| vals.len() <= j < cur.len() && j != i ==> (#[trigger] cur[j]).modify == 0
    &&& added.len() > 0 ==> i < cur.len()
    &&& i < cur.len() ==> {
        &&& stamp_chain(added, time, time_large, large_step, cur[i as int].modify)
        &&& added.len() == 0 && i < vals.len() ==> cur[i as int] == vals[i as int]
        &&& added.len() == 0 && i >= vals.len() ==> cur[i as int].modify == 0
        &&& added.len() > 0 && i < vals.len() ==> added[0].1 == vals[i as int]
        &&& added.len() > 0 && i >= vals.len() ==> added[0].1.modify == 0
    }
}

/// Coordinate `j` holds its value from the start of the proposal, or the
/// first backup entry for it does.
pub open spec fn coord_ok<T>(
    values: Seq<ReplayValue<T>>,
    backup: Seq<(usize, ReplayValue<T>)>,
    start: Seq<ReplayValue<T>>,
    j: int,
) -> bool {
    (untouched(backup, j) && values[j] == start[j]) || first_saved(backup, j, start[j])
}

spec fn chain_inv<T>(
    values: Seq<ReplayValue<T>>,
    backup: Seq<(usize, ReplayValue<T>)>,
    start: Seq<ReplayValue<T>>,
    time: usize,
    time_large: usize,
) -> bool {
    &&& time_large <= time
    &&& forall|j: int| 0 <= j < values.len() ==> #[trigger] values[j].modify <= time
    &&& forall|k: int|
        0 <= k < backup.len() ==> (#[trigger] backup[k]).0 < values.len() && backup[k].1.modify <= time
    &&& start.len() <= values.len()
    &&& forall|j: int| 0 <= j < start.len() ==> #[trigger] coord_ok(values, backup, start, j)
}

impl<T: Copy> IndependentSamplerReplay<T> {
    pub closed spec fn values_view(&self) -> Seq<ReplayValue<T>> {
        self.values@
    }

    pub closed spec fn backup_view(&self) -> Seq<(usize, ReplayValue<T>)> {
        self.backup@
    }

    pub closed spec fn time_view(&self) -> usize {
        self.time
    }

    pub closed spec fn time_large_view(&self) -> usize {
        self.time_large
    }

    pub closed spec fn index_view(&self) -> usize {
        self.indice
    }

    /// Whether the current proposal is a large step.
    pub closed spec fn large_step_view(&self) -> bool {
        self.large_step
    }

    /// The coordinates as they stood when the current proposal began.
    pub closed spec fn proposal_start(&self) -> Seq<ReplayValue<T>> {
        self.start@
    }

    pub closed spec fn wf(&self) -> bool {
        chain_inv(self.values@, self.backup@, self.start@, self.time, self.time_large)
    }

    /// What coordinate `i` needs next: storage, a fresh value (a large step,
    /// or a coordinate untouched since the last accepted large step), one
    /// replayed perturbation, or nothing.
    pub open spec fn spec_pending(&self, i: usize) -> ReplayStep {
        if i >= self.values_view().len() {
            ReplayStep::Extend
        } else if self.values_view()[i as int].modify >= self.time_view() {
            ReplayStep::Ready
        } else if self.large_step_view() {
            ReplayStep::Fresh { stamp: self.time_view() }
        } else if self.values_view()[i as int].modify < self.time_large_view() {
            ReplayStep::Fresh { stamp: self.time_large_view() }
        } else {
            ReplayStep::Mutate { stamp: (self.values_view()[i as int].modify + 1) as usize }
        }
    }

    /// An empty chain at time zero, in small-step mode.
    pub fn new() -> (r: Self)
        ensures
            r.wf(),
            r.values_view().len() == 0,
            r.backup_view().len() == 0,
            r.time_view() == 0,
            r.time_large_view() == 0,
            r.index_view() == 0,
            !r.large_step_view(),
    {
        IndependentSamplerReplay {
            values: Vec::new(),
            backup: Vec::new(),
            time: 0,
            time_large: 0,
            indice: 0,
            large_step: false,
            start: Ghost(Seq::empty()),
        }
    }

    /// Chooses between a large step and a small step for the current
    /// proposal.
    pub fn set_large_step(&mut self, large_step: bool)
        ensures
            final(self).large_step_view() == large_step,
            final(self).values_view() == old(self).values_view(),
            final(self).backup_view() == old(self).backup_view(),
            final(self).time_view() == old(self).time_view(),
            final(self).time_large_view() == old(self).time_large_view(),
            final(self).index_view() == old(self).index_view(),
            final(self).proposal_start() == old(self).proposal_start(),
            old(self).wf() ==> final(self).wf(),
    {
        self.large_step = large_step;
    }

    /// The read index.
    pub fn index(&self) -> (r: usize)
        ensures
            r == self.index_view(),
    {
        self.indice
    }

    /// The chain's time: the number of proposals accepted or rejected.
    pub fn time(&self) -> (r: usize)
        ensures
            r == self.time_view(),
    {
        self.time
    }

    /// The read index, which then moves on by one.
    pub fn next_index(&mut self) -> (r: usize)
        requires
            old(self).index_view() < usize::MAX,
        ensures
            r == old(self).index_view(),
            final(self).index_view() == old(self).index_view() + 1,
            final(self).values_view() == old(self).values_view(),
            final(self).backup_view() == old(self).backup_view(),
            final(self).time_view() == old(self).time_view(),
            final(self).time_large_view() == old(self).time_large_view(),
            final(self).large_step_view() == old(self).large_step_view(),
            final(self).proposal_start() == old(self).proposal_start(),
            old(self).wf() ==> final(self).wf(),
    {
        let i = self.indice;
        self.indice = i + 1;
        proof {
            assert(self.values@ == old(self).values@);
            assert(self.backup@ == old(self).backup@);
            assert(self.start@ == old(self).start@);
        }
        i
    }

    pub fn pending(&self, i: usize) -> (r: ReplayStep)
        ensures
            r == self.spec_pending(i),
    {
        if i >= self.values.len() {
            ReplayStep::Extend
        } else if self.values[i].modify >= self.time {
            ReplayStep::Ready
        } else if self.large_step {
            ReplayStep::Fresh { stamp: self.time }
        } else if self.values[i].modify < self.time_large {
            ReplayStep::Fresh { stamp: self.time_large }
        } else {
            ReplayStep::Mutate { stamp: self.values[i].modify + 1 }
        }
    }

    /// The value of coordinate `i`.
    pub fn value(&self, i: usize) -> (r: T)
        requires
            i < self.values_view().len(),
        ensures
            r == self.values_view()[i as int].value,
    {
        self.values[i].value
    }

    /// Carries out `step`, the step that coordinate `i` needs, with `v` as
    /// the fresh or perturbed value. A coordinate that changes is backed up
    /// first.
    pub fn apply(&mut self, i: usize, step: ReplayStep, v: T)
        requires
            old(self).wf(),
            step == old(self).spec_pending(i),
            step != ReplayStep::Ready,
        ensures
            final(self).wf(),
            final(self).time_view() == old(self).time_view(),
            final(self).time_large_view() == old(self).time_large_view(),
            final(self).index_view() == old(self).index_view(),
            final(self).large_step_view() == old(self).large_step_view(),
            final(self).proposal_start() == old(self).proposal_start(),
            step == ReplayStep::Extend ==> final(self).values_view() == old(self).values_view().push(
                ReplayValue { value: v, modify: 0 },
            ) && final(self).backup_view() == old(self).backup_view(),
            step != ReplayStep::Extend ==> {
                let stamp = match step {
                    ReplayStep::Fresh { stamp } => stamp,
                    ReplayStep::Mutate { stamp } => stamp,
                    _ => 0,
                };
                &&& final(self).values_view() == old(self).values_view().update(
                    i as int,
                    ReplayValue { value: v, modify: stamp },
                )
                &&& final(self).backup_view() == old(self).backup_view().push(
                    (i, old(self).values_view()[i as int]),
                )
            },
    {
        match step {
            ReplayStep::Extend => {
                self.values.push(ReplayValue { value: v, modify: 0 });
                proof {
                    let o = old(self);
                    assert forall|j: int| 0 <= j < o.values@.len() implies #[trigger] self.values@[j]
                        == o.values@[j] by {}
                    assert forall|j: int| 0 <= j < self.start@.len() implies #[trigger] coord_ok(
                        self.values@,
                        self.backup@,
                        self.start@,
                        j,
                    ) by {
                        assert(coord_ok(o.values@, o.backup@, o.start@, j));
                        assert(self.values@[j] == o.values@[j]);
                    }
                }
            },
            ReplayStep::Fresh { stamp } => {
                self.set_value(i, v, stamp);
            },
            ReplayStep::Mutate { stamp } => {
                self.set_value(i, v, stamp);
            },
            ReplayStep::Ready => {},
        }
    }

    /// Steps still needed before coordinate `i` is ready.
    pub closed spec fn steps_left(&self, i: usize) -> nat {
        if i < self.values@.len() {
            (self.time - self.values@[i as int].modify) as nat
        } else {
            ((i - self.values@.len()) + self.time + 2) as nat
        }
    }

    /// Brings coordinate `i` up to date, growing the storage as needed, with
    /// fresh values and perturbations taken from `src`, and returns its
    /// value. Each step is the one that `pending` names.
    pub fn sample<S: ValueSource<T>>(&mut self, i: usize, src: &mut S) -> (r: T)
        requires
            old(self).wf(),
        ensures
            final(self).wf(),
            i < final(self).values_view().len(),
            final(self).spec_pending(i) == ReplayStep::Ready,
            final(self).values_view()[i as int].modify == final(self).time_view(),
            r == final(self).values_view()[i as int].value,
            final(self).time_view() == old(self).time_view(),
            final(self).time_large_view() == old(self).time_large_view(),
            final(self).index_view() == old(self).index_view(),
            final(self).large_step_view() == old(self).large_step_view(),
            final(self).proposal_start() == old(self).proposal_start(),
            forall|j: int|
                0 <= j < old(self).values_view().len() && j != i ==> #[trigger] final(self).values_view()[j]
                    == old(self).values_view()[j],
            sampled_trace(
                old(self).values_view(),
                old(self).backup_view(),
                final(self).values_view(),
                final(self).backup_view(),
                i,
                old(self).time_view(),
                old(self).time_large_view(),
                old(self).large_step_view(),
            ),
            old(self).spec_pending(i) == ReplayStep::Ready ==> r == old(self).values_view()[i as int].value
                && final(self).values_view() == old(self).values_view() && final(self).backup_view()
                == old(self).backup_view(),
            old(self).large_step_view() && i < old(self).values_view().len() && old(self).spec_pending(i)
                != ReplayStep::Ready ==> final(self).backup_view() == old(self).backup_view().push(
                (i, old(self).values_view()[i as int]),
            ),
    {
        let ghost vals = self.values@;
        let ghost ob = self.backup@;
        let ghost t = self.time;
        let ghost tl = self.time_large;
        let ghost large = self.large_step;
        proof {
            assert(self.backup@.subrange(0, ob.len() as int) =~= ob);
            assert(self.backup@.subrange(ob.len() as int, self.backup@.len() as int).len() == 0);
        }
        loop
            invariant
                self.wf(),
                self.values_view().len() >= old(self).values_view().len(),
                vals == old(self).values@,
                ob == old(self).backup@,
                t == self.time,
                tl == self.time_large,
                large == self.large_step,
                self.time_view() == old(self).time_view(),
                self.time_large_view() == old(self).time_large_view(),
                self.index_view() == old(self).index_view(),
                self.large_step_view() == old(self).large_step_view(),
                self.proposal_start() == old(self).proposal_start(),
                forall|j: int|
                    0 <= j < old(self).values_view().len() && j != i ==> #[trigger] self.values_view()[j]
                        == old(self).values_view()[j],
                sampled_trace(vals, ob, self.values@, self.backup@, i, t, tl, large),
            decreases self.steps_left(i),
        {
            let step = self.pending(i);
            let v = match step {
                ReplayStep::Ready => {
                    proof {
                        self.lemma_sample_end(i, vals, ob);
                    }
                    return self.value(i);
                },
                ReplayStep::Extend => src.fresh(),
                ReplayStep::Fresh { .. } => src.fresh(),
                ReplayStep::Mutate { .. } => {
                    let cur = self.value(i);
                    src.perturb(cur)
                },
            };
            let ghost before = self.values@;
            let ghost bb = self.backup@;
            self.apply(i, step, v);
            proof {
                assert forall|j: int|
                    0 <= j < old(self).values_view().len() && j != i implies #[trigger] self.values_view()[j]
                        == old(self).values_view()[j] by {
                    assert(self.values_view()[j] == before[j]);
                }
                lemma_trace_step(vals, ob, before, bb, self.values@, self.backup@, i, t, tl, large, v, step);
            }
        }
    }

    proof fn lemma_sample_end(&self, i: usize, vals: Seq<ReplayValue<T>>, ob: Seq<(usize, ReplayValue<T>)>)
        requires
            self.wf(),
            i < self.values@.len(),
            self.values@[i as int].modify >= self.time,
            sampled_trace(vals, ob, self.values@, self.backup@, i, self.time, self.time_large, self.large_step),
            forall|j: int|
                0 <= j < vals.len() && j != i ==> #[trigger] self.values@[j] == vals[j],
        ensures
            self.values@[i as int].modify == self.time,
            i < vals.len() && vals[i as int].modify >= self.time ==> self.values@ == vals && self.backup@ == ob,
            self.large_step && i < vals.len() && vals[i as int].modify < self.time ==> self.backup@ == ob.push(
                (i, vals[i as int]),
            ),
    {
        let nb = self.backup@;
        let added = nb.subrange(ob.len() as int, nb.len() as int);
        if i < vals.len() && vals[i as int].modify >= self.time {
            if added.len() > 0 {
                assert(added[0].1.modify < self.time);
            }
            assert(self.values@ =~= vals);
            assert(nb =~= nb.subrange(0, ob.len() as int));
        }
        if self.large_step && i < vals.len() && vals[i as int].modify < self.time {
            assert(added.len() > 0);
            if added.len() > 1 {
                assert(added[1].1.modify < self.time);
            }
            assert(added[0] == nb[ob.len() as int]);
            assert(nb =~= ob.push((i, vals[i as int])));
        }
    }

    fn set_value(&mut self, i: usize, v: T, stamp: usize)
        requires
            old(self).wf(),
            i < old(self).values_view().len(),
            stamp <= old(self).time_view(),
        ensures
            final(self).wf(),
            final(self).time == old(self).time,
            final(self).time_large == old(self).time_large,
            final(self).indice == old(self).indice,
            final(self).large_step == old(self).large_step,
            final(self).start == old(self).start,
            final(self).values@ == old(self).values@.update(i as int, ReplayValue { value: v, modify: stamp }),
            final(self).backup@ == old(self).backup@.push((i, old(self).values@[i as int])),
    {
        let prev = self.values[i];
        self.backup.push((i, prev));
        self.values.set(i, ReplayValue { value: v, modify: stamp });
        proof {
            let o = old(self);
            let ob = o.backup@;
            let nb = self.backup@;
            assert forall|k: int| 0 <= k < ob.len() implies nb[k] == ob[k] by {}
            assert forall|j: int| 0 <= j < self.start@.len() implies #[trigger] coord_ok(
                self.values@,
                nb,
                self.start@,
                j,
            ) by {
                assert(coord_ok(o.values@, ob, o.start@, j));
                if untouched(ob, j) && o.values@[j] == o.start@[j] {
                    if j == i {
                        assert(first_entry(nb, j, ob.len() as int));
                    } else {
                        assert forall|k: int| 0 <= k < nb.len() implies (#[trigger] nb[k]).0 != j by {
                            if k < ob.len() {
                                assert(ob[k].0 != j);
                            }
                        }
                    }
                } else {
                    let k = choose|k: int| #[trigger] first_entry(ob, j, k) && ob[k].1 == o.start@[j];
                    assert forall|m: int| 0 <= m < k implies (#[trigger] nb[m]).0 != j by {
                        assert(ob[m].0 != j);
                    }
                    assert(first_entry(nb, j, k));
                }
            }
        }
    }
}

proof fn lemma_trace_step<T>(
    vals: Seq<ReplayValue<T>>,
    ob: Seq<(usize, ReplayValue<T>)>,
    before: Seq<ReplayValue<T>>,
    bb: Seq<(usize, ReplayValue<T>)>,
    cur: Seq<ReplayValue<T>>,
    nb: Seq<(usize, ReplayValue<T>)>,
    i: usize,
    time: usize,
    time_large: usize,
    large_step: bool,
    v: T,
    step: ReplayStep,
)
    requires
        sampled_trace(vals, ob, before, bb, i, time, time_large, large_step),
        time_large <= time,
        step != ReplayStep::Ready,
        step == ReplayStep::Extend ==> i >= before.len() && cur == before.push(
            ReplayValue { value: v, modify: 0 },
        ) && nb == bb,
        step != ReplayStep::Extend ==> {
            &&& i < before.len()
            &&& before[i as int].modify < time
            &&& cur == before.update(
                i as int,
                ReplayValue {
                    value: v,
                    modify: next_stamp(before[i as int].modify, time, time_large, large_step),
                },
            )
            &&& nb == bb.push((i, before[i as int]))
        },
    ensures
        sampled_trace(vals, ob, cur, nb, i, time, time_large, large_step),
{
    let a0 = bb.subrange(ob.len() as int, bb.len() as int);
    let a1 = nb.subrange(ob.len() as int, nb.len() as int);
    if step == ReplayStep::Extend {
        assert(a1 =~= a0);
        assert(nb.subrange(0, ob.len() as int) =~= bb.subrange(0, ob.len() as int));
        assert forall|j: int| vals.len() <= j < cur.len() && j != i implies (#[trigger] cur[j]).modify == 0 by {
            if j < before.len() {
                assert(cur[j] == before[j]);
            }
        }
    } else {
        assert(a1 =~= a0.push((i, before[i as int])));
        assert(nb.subrange(0, ob.len() as int) =~= bb.subrange(0, ob.len() as int));
        assert forall|j: int| vals.len() <= j < cur.len() && j != i implies (#[trigger] cur[j]).modify == 0 by {
            assert(cur[j] == before[j]);
        }
        assert forall|k: int| 0 <= k < a1.len() implies (#[trigger] a1[k]).0 == i by {
            if k < a0.len() {
                assert(a1[k] == a0[k]);
            }
        }
        assert forall|k: int| 0 <= k < a1.len() implies (#[trigger] a1[k]).1.modify < time by {
            if k < a0.len() {
                assert(a1[k] == a0[k]);
            }
        }
        assert forall|k: int| 1 <= k < a1.len() implies (#[trigger] a1[k]).1.modify == next_stamp(
            a1[k - 1].1.modify,
            time,
            time_large,
            large_step,
        ) by {
            assert(a1[k - 1] == a0[k - 1]);
            if k < a0.len() {
                assert(a1[k] == a0[k]);
            }
        }
        if a0.len() > 0 {
            assert(a1[0] == a0[0]);
        }
    }
}

/// The coordinates `vals` after writing back the entries of `backup`,
/// newest first, so that the oldest entry for a coordinate wins.
pub open spec fn restore<T>(vals: Seq<ReplayValue<T>>, backup: Seq<(usize, ReplayValue<T>)>) -> Seq<
    ReplayValue<T>,
>
    decreases backup.len(),
{
    if backup.len() == 0 {
        vals
    } else {
        restore(vals.update(backup.last().0 as int, backup.last().1), backup.drop_last())
    }
}

proof fn lemma_restore<T>(vals: Seq<ReplayValue<T>>, b: Seq<(usize, ReplayValue<T>)>, j: int)
    requires
        0 <= j < vals.len(),
        forall|k: int| 0 <= k < b.len() ==> (#[trigger] b[k]).0 < vals.len(),
    ensures
        restore(vals, b).len() == vals.len(),
        untouched(b, j) ==> restore(vals, b)[j] == vals[j],
        forall|k: int| #[trigger] first_entry(b, j, k) ==> restore(vals, b)[j] == b[k].1,
    decreases b.len(),
{
    if b.len() > 0 {
        let p = b.drop_last();
        let last = b.last();
        let v2 = vals.update(last.0 as int, last.1);
        assert forall|k: int| 0 <= k < p.len() implies (#[trigger] p[k]).0 < v2.len() by {
            assert(p[k] == b[k]);
        }
        lemma_restore(v2, p, j);
        if untouched(b, j) {
            assert(b[b.len() - 1].0 != j);
            assert forall|k: int| 0 <= k < p.len() implies (#[trigger] p[k]).0 != j by {
                assert(p[k] == b[k]);
            }
        }
        assert forall|k: int| #[trigger] first_entry(b, j, k) implies restore(vals, b)[j] == b[k].1 by {
            if k < b.len() - 1 {
                assert forall|m: int| 0 <= m < k implies (#[trigger] p[m]).0 != j by {
                    assert(p[m] == b[m]);
                }
                assert(first_entry(p, j, k));
            } else {
                assert forall|m: int| 0 <= m < p.len() implies (#[trigger] p[m]).0 != j by {
                    assert(p[m] == b[m]);
                }
            }
        }
    }
}

proof fn lemma_restore_bound<T>(vals: Seq<ReplayValue<T>>, b: Seq<(usize, ReplayValue<T>)>, t: usize)
    requires
        forall|k: int| 0 <= k < b.len() ==> (#[trigger] b[k]).0 < vals.len() && b[k].1.modify <= t,
        forall|j: int| 0 <= j < vals.len() ==> (#[trigger] vals[j]).modify <= t,
    ensures
        restore(vals, b).len() == vals.len(),
        forall|j: int| 0 <= j < vals.len() ==> (#[trigger] restore(vals, b)[j]).modify <= t,
    decreases b.len(),
{
    if b.len() > 0 {
        let p = b.drop_last();
        let v2 = vals.update(b.last().0 as int, b.last().1);
        assert forall|k: int| 0 <= k < p.len() implies (#[trigger] p[k]).0 < v2.len() && p[k].1.modify <= t by {
            assert(p[k] == b[k]);
        }
        assert forall|j: int| 0 <= j < v2.len() implies (#[trigger] v2[j]).modify <= t by {}
        lemma_restore_bound(v2, p, t);
    }
}

impl<T: Copy> SamplerMCMC for IndependentSamplerReplay<T> {
    open spec fn can_commit(&self) -> bool {
        self.wf() && self.time_view() < usize::MAX
    }

    /// The proposal becomes the chain's state: the coordinates stay as the
    /// proposal left them, the backup is dropped, a large step moves the
    /// time of the last large step to now, time moves on and reading starts
    /// over.
    open spec fn accepted(prev: &Self, next: &Self) -> bool {
        &&& next.wf()
        &&& next.values_view() == prev.values_view()
        &&& next.backup_view().len() == 0
        &&& next.time_view() == prev.time_view() + 1
        &&& next.time_large_view() == if prev.large_step_view() {
            prev.time_view()
        } else {
            prev.time_large_view()
        }
        &&& next.index_view() == 0
        &&& next.large_step_view() == prev.large_step_view()
        &&& next.proposal_start() == next.values_view()
    }

    /// The backup is written back newest first, the backup is dropped, time
    /// moves on and reading starts over. So every coordinate that existed
    /// when the proposal began holds again the value and time stamp it had
    /// then; coordinates that the proposal added stay.
    open spec fn rejected(prev: &Self, next: &Self) -> bool {
        &&& next.wf()
        &&& next.values_view() == restore(prev.values_view(), prev.backup_view())
        &&& next.values_view().len() == prev.values_view().len()
        &&& forall|j: int|
            0 <= j < prev.proposal_start().len() ==> #[trigger] next.values_view()[j]
                == prev.proposal_start()[j]
        &&& next.backup_view().len() == 0
        &&& next.time_view() == prev.time_view() + 1
        &&& next.time_large_view() == prev.time_large_view()
        &&& next.index_view() == 0
        &&& next.large_step_view() == prev.large_step_view()
        &&& next.proposal_start() == next.values_view()
    }

    fn accept(&mut self) {
        self.backup.clear();
        if self.large_step {
            self.time_large = self.time;
        }
        self.time = self.time + 1;
        self.indice = 0;
        self.start = Ghost(self.values@);
    }

    fn reject(&mut self) {
        let ghost vals = self.values@;
        let ghost b = self.backup@;
        let mut k: usize = self.backup.len();
        proof {
            assert(b.take(b.len() as int) =~= b);
        }
        while k > 0
            invariant
                self.backup@ == b,
                k <= b.len(),
                restore(self.values@, b.take(k as int)) == restore(vals, b),
                self.values@.len() == vals.len(),
                vals == old(self).values@,
                b == old(self).backup@,
                old(self).wf(),
                old(self).time < usize::MAX,
                self.time == old(self).time,
                self.time_large == old(self).time_large,
                self.large_step == old(self).large_step,
                self.start == old(self).start,
                forall|m: int| 0 <= m < b.len() ==> (#[trigger] b[m]).0 < vals.len(),
            decreases k,
        {
            let (idx, v) = self.backup[k - 1];
            proof {
                assert(b.take(k as int).last() == b[k - 1]);
                assert(b.take(k as int).drop_last() =~= b.take(k - 1));
            }
            self.values.set(idx, v);
            k = k - 1;
        }
        proof {
            assert(b.take(0) =~= Seq::<(usize, ReplayValue<T>)>::empty());
        }
        self.backup.clear();
        self.time = self.time + 1;
        self.indice = 0;
        self.start = Ghost(self.values@);
        proof {
            let o = old(self);
            lemma_restore_bound(vals, b, o.time);
            assert forall|j: int| 0 <= j < o.start@.len() implies #[trigger] self.values@[j]
                == o.start@[j] by {
                lemma_restore(vals, b, j);
                assert(coord_ok(vals, b, o.start@, j));
                if !(untouched(b, j) && vals[j] == o.start@[j]) {
                    let k = choose|k: int| #[trigger] first_entry(b, j, k) && b[k].1 == o.start@[j];
                }
            }
            assert forall|j: int| 0 <= j < self.values@.len() implies (#[trigger] self.values@[j]).modify
                <= self.time by {}
            assert forall|j: int| 0 <= j < self.start@.len() implies #[trigger] coord_ok(
                self.values@,
                self.backup@,
                self.start@,
                j,
            ) by {
                assert(untouched(self.backup@, j));
            }
            assert(self.wf());
        }
    }
}

} // verus!
