use rustlight::sampler::{IndependentSamplerReplay, ReplayStep, SamplerMCMC, ValueSource};

/// Reads coordinate `i`, answering each step with the next of `draws`:
/// a fresh value is taken as is, a perturbation adds it to the old value.
fn read(chain: &mut IndependentSamplerReplay<f32>, i: usize, draws: &mut Vec<f32>) -> f32 {
    loop {
        let step = chain.pending(i);
        match step {
            ReplayStep::Ready => return chain.value(i),
            ReplayStep::Extend | ReplayStep::Fresh { .. } => {
                let v = draws.remove(0);
                chain.apply(i, step, v);
            }
            ReplayStep::Mutate { .. } => {
                let v = chain.value(i) + draws.remove(0);
                chain.apply(i, step, v);
            }
        }
    }
}

#[test]
fn fresh_chain_grows_and_reads() {
    let mut c = IndependentSamplerReplay::<f32>::new();
    let mut d = vec![0.25, 0.5];
    assert_eq!(c.next_index(), 0);
    assert_eq!(read(&mut c, 0, &mut d), 0.25);
    assert_eq!(c.next_index(), 1);
    assert_eq!(read(&mut c, 1, &mut d), 0.5);
    assert_eq!(read(&mut c, 0, &mut d), 0.25);
    assert!(d.is_empty());
}

#[test]
fn reject_restores_and_accept_keeps() {
    let mut c = IndependentSamplerReplay::<f32>::new();
    let mut d = vec![0.25, 0.5];
    read(&mut c, 0, &mut d);
    read(&mut c, 1, &mut d);
    c.accept();
    // Small step: each live coordinate is perturbed once.
    let mut d = vec![0.125, 0.0625];
    assert_eq!(read(&mut c, 0, &mut d), 0.375);
    assert_eq!(read(&mut c, 1, &mut d), 0.5625);
    c.reject();
    // Both coordinates are back to their values and time stamps from before
    // the proposal, so each is brought forward the same way: one replayed
    // perturbation for the rejected step, one for the new proposal.
    let mut d = vec![0.0625, 0.0625];
    assert_eq!(read(&mut c, 0, &mut d), 0.375);
    assert!(d.is_empty());
    let mut d = vec![0.0, 0.0];
    assert_eq!(read(&mut c, 1, &mut d), 0.5);
    assert!(d.is_empty());
    c.accept();
    let mut d = vec![0.125];
    assert_eq!(read(&mut c, 0, &mut d), 0.5);
    c.accept();
    // The accepted value is where the following proposal starts.
    let mut z: Vec<f32> = vec![0.0];
    assert_eq!(read(&mut c, 0, &mut z), 0.5);
}

#[test]
fn large_step_replaces_and_reject_restores() {
    let mut c = IndependentSamplerReplay::<f32>::new();
    let mut d = vec![0.25];
    read(&mut c, 0, &mut d);
    c.accept();
    c.set_large_step(true);
    let mut d = vec![0.75];
    assert_eq!(read(&mut c, 0, &mut d), 0.75);
    c.reject();
    c.set_large_step(false);
    let mut z: Vec<f32> = vec![0.0, 0.0];
    assert_eq!(read(&mut c, 0, &mut z), 0.25);
    assert!(z.is_empty());
}

#[test]
fn accepted_large_step_resets_stale_coordinates() {
    let mut c = IndependentSamplerReplay::<f32>::new();
    let mut d = vec![0.25, 0.5];
    read(&mut c, 0, &mut d);
    read(&mut c, 1, &mut d);
    c.accept();
    c.set_large_step(true);
    let mut d = vec![0.75];
    read(&mut c, 0, &mut d);
    c.accept();
    c.set_large_step(false);
    // Coordinate 1 was not touched by the accepted large step: it is drawn
    // afresh at that step's time, then perturbed once.
    let mut d = vec![0.125, 0.25];
    assert_eq!(read(&mut c, 1, &mut d), 0.375);
}

/// Hands out scripted values: fresh ones in order, perturbations by adding
/// the next scripted offset.
struct Script {
    fresh: Vec<f32>,
    offsets: Vec<f32>,
}

impl ValueSource<f32> for Script {
    fn fresh(&mut self) -> f32 {
        self.fresh.remove(0)
    }
    fn perturb(&mut self, v: f32) -> f32 {
        v + self.offsets.remove(0)
    }
}

#[test]
fn sample_grows_and_replays() {
    let mut c = IndependentSamplerReplay::<f32>::new();
    let mut s = Script { fresh: vec![0.25, 0.5, 0.75], offsets: vec![] };
    // Reading coordinate 2 first grows the storage by three fresh values.
    assert_eq!(c.sample(2, &mut s), 0.75);
    assert_eq!(c.sample(0, &mut s), 0.25);
    assert!(s.fresh.is_empty());
    c.accept();
    c.accept();
    // Two steps behind: one replayed perturbation, then the proposal's own.
    let mut s = Script { fresh: vec![], offsets: vec![0.125, 0.0625] };
    assert_eq!(c.sample(1, &mut s), 0.6875);
    assert!(s.offsets.is_empty());
    // Reading it again in the same proposal draws nothing.
    let mut none = Script { fresh: vec![], offsets: vec![] };
    assert_eq!(c.sample(1, &mut none), 0.6875);
    c.reject();
    let mut s = Script { fresh: vec![], offsets: vec![0.0, 0.0, 0.0] };
    assert_eq!(c.sample(1, &mut s), 0.5);
    assert!(s.offsets.is_empty());
}
