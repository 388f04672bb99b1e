use pathtracer::integrator::{on_query, on_scatter, Step, MAX_BOUNCES};
use pathtracer::material::{dielectric_outgoing, dielectric_side, metal_scatters, Outgoing, Side};

fn key(x: f32) -> i64 {
    let b = x.to_bits() as i32;
    (b ^ ((((b >> 31) as u32) >> 1) as i32)) as i64
}

#[test]
fn metal_absorbs_rays_into_the_surface() {
    assert!(!metal_scatters(key(-0.25)));
    assert!(!metal_scatters(key(0.0)));
    assert!(!metal_scatters(key(-0.0)));
    assert!(metal_scatters(key(1e-6)));
    assert!(metal_scatters(key(0.8)));
}

#[test]
fn dielectric_total_internal_reflection() {
    for draw in [0.0f32, 0.3, 0.999] {
        assert_eq!(dielectric_outgoing(key(-0.44), key(draw), key(0.04)), Outgoing::Reflected);
        assert_eq!(dielectric_outgoing(key(0.0), key(draw), key(0.0)), Outgoing::Reflected);
    }
}

#[test]
fn dielectric_chooses_by_schlick_draw() {
    assert_eq!(dielectric_outgoing(key(0.7), key(0.5), key(0.04)), Outgoing::Refracted);
    assert_eq!(dielectric_outgoing(key(0.7), key(0.04), key(0.04)), Outgoing::Refracted);
    assert_eq!(dielectric_outgoing(key(0.7), key(0.03), key(0.04)), Outgoing::Reflected);
}

#[test]
fn dielectric_side_by_normal() {
    assert_eq!(dielectric_side(key(-0.5)), Side::Entering);
    assert_eq!(dielectric_side(key(0.0)), Side::Entering);
    assert_eq!(dielectric_side(key(0.5)), Side::Exiting);
}

#[test]
fn integrator_policy_steps() {
    assert_eq!(MAX_BOUNCES, 12);
    assert_eq!(on_query(0, false), Step::Sky);
    assert_eq!(on_query(12, false), Step::Sky);
    assert_eq!(on_query(0, true), Step::Scatter);
    assert_eq!(on_query(11, true), Step::Scatter);
    assert_eq!(on_query(12, true), Step::Black);
    assert_eq!(on_scatter(3, true), Some(4));
    assert_eq!(on_scatter(3, false), None);
}

#[test]
fn integrator_path_stops_at_budget() {
    // A path that always hits and always scatters.
    let mut depth = 0u32;
    let mut scatters = 0u32;
    loop {
        match on_query(depth, true) {
            Step::Scatter => {
                scatters += 1;
                depth = on_scatter(depth, true).unwrap();
            }
            Step::Black => break,
            Step::Sky => unreachable!(),
        }
    }
    assert_eq!(scatters, MAX_BOUNCES);
}
