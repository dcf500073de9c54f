//! The plan at work: a fluid in single precision is stepped by carrying out
//! the steps that the cursor hands out, one by one.

use cgmath::{InnerSpace, Vector2};
use sph_plan::cursor::Cursor;
use sph_plan::lattice::seed_sites;
use sph_plan::step::{Pass, Step};

const REST_DENSITY: f32 = 1000f32;
const GAS_CONSTANT: f32 = 2000f32;
const KERNEL_RADIUS: f32 = 16f32;
const MASS: f32 = 65f32;
const VISCOSITY: f32 = 250f32;
const WIDTH: f32 = 500f32;
const HEIGHT: f32 = 500f32;

#[derive(Clone, Copy, Debug)]
struct Body {
    x: Vector2<f32>,
    v: Vector2<f32>,
    f: Vector2<f32>,
    rho: f32,
    p: f32,
}

struct Fluid {
    gravity: Vector2<f32>,
    dt: f32,
    bodies: Vec<Body>,
}

fn body(x: f32, y: f32, vx: f32, vy: f32) -> Body {
    Body {
        x: cgmath::vec2(x, y),
        v: cgmath::vec2(vx, vy),
        f: cgmath::vec2(0f32, 0f32),
        rho: 0f32,
        p: 0f32,
    }
}

fn poly6() -> f32 {
    315f32 / (65f32 * std::f32::consts::PI * KERNEL_RADIUS.powf(9f32))
}

fn spiky_grad() -> f32 {
    -45f32 / (std::f32::consts::PI * KERNEL_RADIUS.powf(6f32))
}

fn visc_lap() -> f32 {
    45f32 / (std::f32::consts::PI * KERNEL_RADIUS.powf(6f32))
}

fn lattice() -> Vec<Body> {
    seed_sites()
        .into_iter()
        .map(|site| {
            body(
                site.column as f32 * KERNEL_RADIUS + 150f32,
                site.row as f32 * KERNEL_RADIUS + 150f32,
                0f32,
                0f32,
            )
        })
        .collect()
}

/// Carries out the steps of one update, up to and including those of `last`.
fn step_through(fluid: &mut Fluid, last: Pass) {
    let h = KERNEL_RADIUS;
    let h2 = KERNEL_RADIUS * KERNEL_RADIUS;
    let inset = KERNEL_RADIUS * 0.5f32;
    let mut press = cgmath::vec2(0f32, 0f32);
    let mut visc = cgmath::vec2(0f32, 0f32);
    let mut cursor = Cursor::new(fluid.bodies.len());
    while let Some(step) = cursor.advance() {
        if last == Pass::DensityPressure && step.pass() != Pass::DensityPressure {
            break;
        }
        if last == Pass::Forces && step.pass() == Pass::Integrate {
            break;
        }
        let b = &mut fluid.bodies;
        match step {
            Step::ClearDensity { particle: i } => b[i].rho = 0f32,
            Step::Density { particle: i, neighbour: j } => {
                let rij: Vector2<f32> = b[j].x - b[i].x;
                let r2 = rij.magnitude2();
                if r2 < h2 {
                    b[i].rho += MASS * poly6() * (h2 - r2).powf(3f32)
                }
            }
            Step::Pressure { particle: i } => b[i].p = GAS_CONSTANT * (b[i].rho - REST_DENSITY),
            Step::ClearForce { .. } => {
                press = cgmath::vec2(0f32, 0f32);
                visc = cgmath::vec2(0f32, 0f32);
            }
            Step::Force { particle: i, neighbour: j } => {
                let rij: Vector2<f32> = b[j].x - b[i].x;
                let r = rij.magnitude();
                if r < h {
                    press += -rij.normalize() * MASS * (b[i].p + b[j].p) / (2f32 * b[j].rho)
                        * spiky_grad()
                        * (h - r).powf(2f32);
                    visc += VISCOSITY * MASS * (b[j].v - b[i].v) / b[j].rho * visc_lap() * (h - r)
                }
            }
            Step::Resultant { particle: i } => b[i].f = press + visc + fluid.gravity * b[i].rho,
            Step::Integrate { particle: i } => {
                let p = &mut b[i];
                p.v += fluid.dt * p.f / p.rho;
                p.x += fluid.dt * p.v;
                if p.x.x < inset {
                    p.v.x *= -0.5f32;
                    p.x.x = inset
                }
                if p.x.y < inset {
                    p.v.y *= -0.5f32;
                    p.x.y = inset
                }
                if p.x.x > WIDTH - inset {
                    p.v.x *= -0.5f32;
                    p.x.x = WIDTH - inset
                }
                if p.x.y > HEIGHT - inset {
                    p.v.y *= -0.5f32;
                    p.x.y = HEIGHT - inset
                }
            }
        }
    }
}

fn update(fluid: &mut Fluid) {
    step_through(fluid, Pass::Integrate)
}

fn still(bodies: Vec<Body>) -> Fluid {
    Fluid { gravity: cgmath::vec2(0f32, 0f32), dt: 0.0008f32, bodies }
}

fn falling(bodies: Vec<Body>) -> Fluid {
    Fluid { gravity: cgmath::vec2(0f32, -9.8 * 12000f32), dt: 0.0008f32, bodies }
}

#[test]
fn lone_particle_has_its_own_density_and_the_pressure_that_follows() {
    let mut fluid = falling(vec![body(250f32, 250f32, 0f32, 0f32)]);
    update(&mut fluid);
    let own = MASS * poly6() * (KERNEL_RADIUS * KERNEL_RADIUS).powf(3f32);
    assert_eq!(fluid.bodies[0].rho, own);
    assert_eq!(fluid.bodies[0].p, GAS_CONSTANT * (own - REST_DENSITY));
    assert!((fluid.bodies[0].rho - 0.024479398f32).abs() < 1e-6);
    assert!((fluid.bodies[0].p + 1_999_951.0f32).abs() < 1.0);
    assert!(fluid.bodies[0].p < 0f32);
}

#[test]
fn particle_out_of_reach_adds_no_density() {
    let mut fluid = still(vec![
        body(100f32, 100f32, 0f32, 0f32),
        body(116f32, 100f32, 0f32, 0f32),
    ]);
    step_through(&mut fluid, Pass::DensityPressure);
    let own = MASS * poly6() * (KERNEL_RADIUS * KERNEL_RADIUS).powf(3f32);
    assert_eq!(fluid.bodies[0].rho, own);
    assert_eq!(fluid.bodies[1].rho, own);
}

#[test]
fn densities_are_positive_after_the_density_pass() {
    let mut fluid = falling(lattice());
    step_through(&mut fluid, Pass::DensityPressure);
    assert_eq!(fluid.bodies.len(), 400);
    for b in &fluid.bodies {
        assert!(b.rho > 0f32);
        assert_eq!(b.p, GAS_CONSTANT * (b.rho - REST_DENSITY));
    }
}

#[test]
fn density_pass_leaves_forces_and_positions_alone() {
    let mut fluid = falling(lattice());
    step_through(&mut fluid, Pass::DensityPressure);
    for (b, start) in fluid.bodies.iter().zip(lattice()) {
        assert_eq!(b.x, start.x);
        assert_eq!(b.v, start.v);
        assert_eq!(b.f, start.f);
    }
}

#[test]
fn two_particles_push_each_other_with_opposite_forces() {
    let mut fluid = still(vec![
        body(250f32, 250f32, 0f32, 0f32),
        body(258f32, 250f32, 0f32, 0f32),
    ]);
    update(&mut fluid);
    let (a, b) = (fluid.bodies[0], fluid.bodies[1]);
    assert_eq!(a.rho, b.rho);
    assert_eq!(a.p, b.p);
    assert!(a.f.x != 0f32);
    assert!(a.f.x.is_finite());
    assert_eq!(a.f.x, -b.f.x);
    assert_eq!(a.f.y, -b.f.y);
}

#[test]
fn particle_beyond_the_left_wall_is_put_on_the_inset() {
    let mut fluid = still(vec![body(2f32, 250f32, -10f32, 3f32)]);
    update(&mut fluid);
    assert_eq!(fluid.bodies[0].x.x, 8f32);
    assert_eq!(fluid.bodies[0].v.x, 5f32);
    assert_eq!(fluid.bodies[0].v.y, 3f32);
}

#[test]
fn particle_beyond_the_bottom_wall_is_put_on_the_inset() {
    let mut fluid = still(vec![body(250f32, -4f32, 1f32, -6f32)]);
    update(&mut fluid);
    assert_eq!(fluid.bodies[0].x.y, 8f32);
    assert_eq!(fluid.bodies[0].v.y, 3f32);
    assert_eq!(fluid.bodies[0].v.x, 1f32);
}

#[test]
fn particle_beyond_the_right_wall_is_put_on_the_inset() {
    let mut fluid = still(vec![body(510f32, 250f32, 8f32, 0f32)]);
    update(&mut fluid);
    assert_eq!(fluid.bodies[0].x.x, 492f32);
    assert_eq!(fluid.bodies[0].v.x, -4f32);
}

#[test]
fn particle_beyond_the_top_wall_is_put_on_the_inset() {
    let mut fluid = still(vec![body(250f32, 499f32, 0f32, 2f32)]);
    update(&mut fluid);
    assert_eq!(fluid.bodies[0].x.y, 492f32);
    assert_eq!(fluid.bodies[0].v.y, -1f32);
}

#[test]
fn particles_stay_inside_the_domain() {
    let mut fluid = falling(lattice());
    for _ in 0..10 {
        update(&mut fluid);
        for b in &fluid.bodies {
            assert!(8f32 <= b.x.x && b.x.x <= 492f32);
            assert!(8f32 <= b.x.y && b.x.y <= 492f32);
        }
    }
}

#[test]
fn gravity_alone_adds_its_acceleration_times_the_time_step() {
    let mut fluid = falling(vec![body(250f32, 250f32, 0f32, 0f32)]);
    update(&mut fluid);
    let b = fluid.bodies[0];
    assert_eq!(b.f, fluid.gravity * b.rho);
    assert_eq!(b.v.x, 0f32);
    assert!((b.v.y + 94.08f32).abs() < 1e-3);
    assert!((b.x.y - (250f32 - 0.075264f32)).abs() < 1e-3);
}

#[test]
fn zero_time_step_moves_nothing() {
    let start = vec![
        body(250f32, 250f32, 1f32, -2f32),
        body(258f32, 250f32, 0f32, 0f32),
        body(254f32, 257f32, -3f32, 4f32),
    ];
    let mut fluid = falling(start.clone());
    fluid.dt = 0f32;
    update(&mut fluid);
    for (b, was) in fluid.bodies.iter().zip(start) {
        assert_eq!(b.x, was.x);
        assert_eq!(b.v, was.v);
        assert!(b.rho > 0f32);
    }
}

#[test]
fn equal_starts_give_equal_runs() {
    let mut one = falling(lattice());
    let mut other = falling(lattice());
    for _ in 0..3 {
        update(&mut one);
        update(&mut other);
    }
    for (a, b) in one.bodies.iter().zip(&other.bodies) {
        assert_eq!(a.x.x.to_bits(), b.x.x.to_bits());
        assert_eq!(a.x.y.to_bits(), b.x.y.to_bits());
        assert_eq!(a.v.x.to_bits(), b.v.x.to_bits());
        assert_eq!(a.v.y.to_bits(), b.v.y.to_bits());
        assert_eq!(a.rho.to_bits(), b.rho.to_bits());
        assert_eq!(a.p.to_bits(), b.p.to_bits());
    }
}
