use vstd::prelude::*;

verus! {

/// The flags that every material reports to the integrators.
pub trait BSDF {
    /// The material is consistent, so its flags can be asked.
    spec fn well_formed(&self) -> bool;

    /// All lobes are delta-like.
    spec fn smooth(&self) -> bool;

    /// The material does not transmit.
    spec fn twosided(&self) -> bool;

    fn is_smooth(&self) -> (r: bool)
        requires
            self.well_formed(),
        ensures
            r == self.smooth(),
    ;

    fn is_twosided(&self) -> (r: bool)
        requires
            self.well_formed(),
        ensures
            r == self.twosided(),
    ;
}

/// Equal blend of two materials: the first half of the lobe selector goes to
/// `bsdf1`, the second half to `bsdf2`. Neither may be specular, and both
/// must be two-sided.
pub struct BSDFBlend<B1, B2> {
    pub bsdf1: B1,
    pub bsdf2: B2,
}

impl<B1: BSDF, B2: BSDF> BSDFBlend<B1, B2> {
    /// Blends two materials. Neither may be specular and both must be
    /// two-sided: a blend of any other is a scene error, to fail on before
    /// the call.
    pub fn new(bsdf1: B1, bsdf2: B2) -> (r: Self)
        requires
            bsdf1.well_formed(),
            bsdf2.well_formed(),
            !bsdf1.smooth(),
            !bsdf2.smooth(),
            bsdf1.twosided(),
            bsdf2.twosided(),
        ensures
            r.bsdf1 == bsdf1,
            r.bsdf2 == bsdf2,
            r.well_formed(),
    {
        BSDFBlend { bsdf1, bsdf2 }
    }
}

impl<B1: BSDF, B2: BSDF> BSDF for BSDFBlend<B1, B2> {
    open spec fn well_formed(&self) -> bool {
        &&& self.bsdf1.well_formed()
        &&& self.bsdf2.well_formed()
        &&& !self.bsdf1.smooth()
        &&& !self.bsdf2.smooth()
        &&& self.bsdf1.twosided()
        &&& self.bsdf2.twosided()
    }

    open spec fn smooth(&self) -> bool {
        false
    }

    open spec fn twosided(&self) -> bool {
        true
    }

    fn is_smooth(&self) -> (r: bool) {
        false
    }

    fn is_twosided(&self) -> (r: bool) {
        true
    }
}

/// A material known only by its two flags.
#[derive(Clone, Copy, Debug, PartialEq, Eq, Structural)]
pub struct BSDFFlags {
    pub smooth: bool,
    pub twosided: bool,
}

impl BSDF for BSDFFlags {
    open spec fn well_formed(&self) -> bool {
        true
    }

    open spec fn smooth(&self) -> bool {
        self.smooth
    }

    open spec fn twosided(&self) -> bool {
        self.twosided
    }

    fn is_smooth(&self) -> (r: bool) {
        self.smooth
    }

    fn is_twosided(&self) -> (r: bool) {
        self.twosided
    }
}

} // verus!
