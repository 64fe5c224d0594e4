//! Integer and bookkeeping core of a gradient-domain path tracer: the image
//! tiling of the Monte Carlo driver, the screened Poisson reconstruction's
//! stencil and sample subsets, the path integrator's depth and MIS policy,
//! the blend material's flags, the primary-sample-space replay chain, and the
//! command line's numeric options.
pub mod blend;
pub mod cli;
pub mod driver;
pub mod path;
pub mod recons;
pub mod sampler;
pub mod stencil;
pub mod tools;
