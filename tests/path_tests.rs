use rustlight::blend::{BSDFBlend, BSDFFlags, BSDF};
use rustlight::path::{IntegratorPath, MisRule, PdfKind};

fn integrator(max: Option<u32>, min: Option<u32>, nee: bool) -> IntegratorPath {
    IntegratorPath { max_depth: max, min_depth: min, next_event_estimation: nee }
}

#[test]
fn depth_window() {
    let p = integrator(Some(3), Some(2), true);
    assert!(p.continues(2));
    assert!(!p.continues(3));
    assert!(!p.counts(1));
    assert!(p.counts(2));
    let q = integrator(None, None, true);
    assert!(q.continues(u32::MAX));
    assert!(q.counts(0));
}

#[test]
fn direct_emission_first_hit_only() {
    let p = integrator(None, None, true);
    assert!(p.adds_direct_emission(1, true));
    assert!(!p.adds_direct_emission(1, false));
    assert!(!p.adds_direct_emission(2, true));
    let m = integrator(None, Some(2), true);
    assert!(!m.adds_direct_emission(1, true));
}

#[test]
fn light_sampling_needs_rough_surface_and_nee() {
    assert!(integrator(None, None, true).samples_light(false));
    assert!(!integrator(None, None, true).samples_light(true));
    assert!(!integrator(None, None, false).samples_light(false));
}

#[test]
fn weighted_contribution_gate() {
    let p = integrator(None, Some(3), true);
    assert!(!p.adds_weighted(2, false));
    assert!(!p.adds_weighted(2, true));
    assert!(p.adds_weighted(3, false));
    assert!(p.adds_weighted(3, true));
    let q = integrator(None, Some(2), false);
    assert!(!q.adds_weighted(1, true));
}

#[test]
fn bsdf_hit_rules() {
    let p = integrator(None, None, true);
    assert_eq!(p.bsdf_hit_rule(PdfKind::SolidAngle), MisRule::PowerHeuristic);
    assert_eq!(p.bsdf_hit_rule(PdfKind::Discrete), MisRule::Unit);
    let q = integrator(None, None, false);
    assert_eq!(q.bsdf_hit_rule(PdfKind::Area), MisRule::Unit);
    assert_eq!(q.bsdf_hit_rule(PdfKind::SolidAngle), MisRule::Unit);
}

#[test]
fn blend_of_rough_two_sided_materials() {
    let a = BSDFFlags { smooth: false, twosided: true };
    let b = BSDFFlags { smooth: false, twosided: true };
    let blend = BSDFBlend::new(a, b);
    assert!(!blend.is_smooth());
    assert!(blend.is_twosided());
    assert_eq!(blend.bsdf1, a);
    assert_eq!(blend.bsdf2, b);
}
