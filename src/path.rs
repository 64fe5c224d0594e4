use vstd::prelude::*;

verus! {

/// Path tracer with multiple-importance-sampled next-event estimation.
/// `max_depth`: `None` is unbounded; `min_depth`: first depth whose
/// contributions count, `None` counting all of them.
pub struct IntegratorPath {
    pub max_depth: Option<u32>,
    pub min_depth: Option<u32>,
    pub next_event_estimation: bool,
}

/// Measure in which a density is expressed.
#[derive(Clone, Copy, Debug, PartialEq, Eq, Structural)]
pub enum PdfKind {
    SolidAngle,
    Area,
    Discrete,
    Length,
}

/// How the BSDF-sampled hit on an emitter is weighted.
#[derive(Clone, Copy, Debug, PartialEq, Eq, Structural)]
pub enum MisRule {
    /// Power heuristic against the light-sampling density.
    PowerHeuristic,
    /// Full weight: the light could not have been sampled otherwise.
    Unit,
}

impl IntegratorPath {
    pub open spec fn spec_continues(&self, depth: u32) -> bool {
        match self.max_depth {
            Some(m) => depth < m,
            None => true,
        }
    }

    pub open spec fn spec_counts(&self, depth: u32) -> bool {
        match self.min_depth {
            Some(m) => depth >= m,
            None => true,
        }
    }

    /// Whether the path goes on at `depth`: below `max_depth`, or always when
    /// it is unbounded.
    pub fn continues(&self, depth: u32) -> (r: bool)
        ensures
            r == self.spec_continues(depth),
    {
        match self.max_depth {
            Some(m) => depth < m,
            None => true,
        }
    }

    /// Whether contributions at `depth` are added to the estimate.
    pub fn counts(&self, depth: u32) -> (r: bool)
        ensures
            r == self.spec_counts(depth),
    {
        match self.min_depth {
            Some(m) => depth >= m,
            None => true,
        }
    }

    /// Emission seen directly is added at the first hit only, when the hit
    /// faces the ray and that depth counts.
    pub fn adds_direct_emission(&self, depth: u32, front_facing: bool) -> (r: bool)
        ensures
            r == (front_facing && self.spec_counts(depth) && depth == 1),
    {
        front_facing && self.counts(depth) && depth == 1
    }

    /// A light is sampled explicitly when next-event estimation is on and the
    /// surface is not purely specular.
    pub fn samples_light(&self, bsdf_is_smooth: bool) -> (r: bool)
        ensures
            r == (!bsdf_is_smooth && self.next_event_estimation),
    {
        !bsdf_is_smooth && self.next_event_estimation
    }

    /// A weighted contribution (light sampling or an emitter reached by BSDF
    /// sampling) is added only at depths that count, whatever its weight.
    pub fn adds_weighted(&self, depth: u32, weight_positive: bool) -> (r: bool)
        ensures
            r == self.spec_counts(depth),
    {
        self.counts(depth)
    }

    /// The densities that an emitter reached by BSDF sampling can carry:
    /// any kind without next-event estimation; with it, a solid-angle or a
    /// discrete density only (any other is a scene error, to fail on before
    /// the call).
    pub open spec fn supported_hit_kind(&self, kind: PdfKind) -> bool {
        !self.next_event_estimation || kind == PdfKind::SolidAngle || kind == PdfKind::Discrete
    }

    /// The weight rule for an emitter reached by BSDF sampling whose density
    /// was of kind `kind`. Without next-event estimation the weight is one;
    /// with it, a solid-angle density is weighed against light sampling and a
    /// discrete one has weight one.
    pub fn bsdf_hit_rule(&self, kind: PdfKind) -> (r: MisRule)
        requires
            self.supported_hit_kind(kind),
        ensures
            !self.next_event_estimation ==> r == MisRule::Unit,
            self.next_event_estimation && kind == PdfKind::SolidAngle ==> r == MisRule::PowerHeuristic,
            self.next_event_estimation && kind == PdfKind::Discrete ==> r == MisRule::Unit,
    {
        if !self.next_event_estimation {
            MisRule::Unit
        } else {
            match kind {
                PdfKind::SolidAngle => MisRule::PowerHeuristic,
                _ => MisRule::Unit,
            }
        }
    }
}

} // verus!
