use spincube::anim::AnimationState;
use spincube::cube::{cube_edge, cube_vertex, CUBE_EDGES, CUBE_VERTICES};
use spincube::fixed::{fx_div, fx_mul, SCALE};
use spincube::geom::{rotate_euler, translate, Vector2, Vector3};
use spincube::quat::{rotate, rotate_quaternion, Quaternion};
use spincube::screen::{project, to_screen};

const S: i64 = SCALE;

fn v3(x: i64, y: i64, z: i64) -> Vector3 {
    Vector3 { x, y, z }
}

#[test]
fn fixed_point_products_are_exact() {
    assert_eq!(fx_mul(3 * S, 2 * S), 6 * S);
    assert_eq!(fx_mul(1, 1), 0);
    assert_eq!(fx_mul(-1, 1), 0);
    assert_eq!(fx_div(S, 2 * S), S / 2);
    assert_eq!(fx_div(7, 3), 152917);
}

#[test]
fn euler_rotation_fixes_plane_at_zero_angle() {
    let p = v3(S, 123456, 0);
    let r = rotate_euler(p, S, 0);
    assert_eq!(r, p);
}

#[test]
fn euler_rotation_preserves_y() {
    let r = rotate_euler(v3(S, 7 * S, 3 * S), 32768, 56756);
    assert_eq!(r.y, 7 * S);
}

#[test]
fn euler_rotation_formula_exact_values() {
    let r = rotate_euler(v3(S, 0, 2 * S), 32768, 56756);
    assert_eq!(r.x, 32768 + 113512);
    assert_eq!(r.y, 0);
    assert_eq!(r.z, 56756 - 65536);
}

#[test]
fn quaternion_rotation_quarter_turn_about_y() {
    let half = 46341;
    let r = rotate_quaternion(v3(S, 0, 0), v3(0, S, 0), half, half);
    assert_eq!(r, v3(0, 0, -S));
    let n_in = (S as i128) * (S as i128);
    let n_out =
        (r.x as i128) * (r.x as i128) + (r.y as i128) * (r.y as i128) + (r.z as i128)
            * (r.z as i128);
    assert_eq!(n_in, n_out);
}

#[test]
fn rotor_and_sandwich_agree_with_helper() {
    let q = Quaternion::rot(v3(0, S, 0), 46341, 46341);
    assert_eq!((q.a, q.b, q.c, q.d), (46341, 0, 46341, 0));
    let r = rotate(q, v3(S, 0, 0));
    assert_eq!(r, v3(0, 0, -S));
}

#[test]
fn product_is_not_commutative() {
    let i = Quaternion { a: 0, b: S, c: 0, d: 0 };
    let j = Quaternion { a: 0, b: 0, c: S, d: 0 };
    let ij = i.product(j);
    let ji = j.product(i);
    assert_eq!((ij.a, ij.b, ij.c, ij.d), (0, 0, 0, S));
    assert_eq!((ji.a, ji.b, ji.c, ji.d), (0, 0, 0, -S));
    assert_ne!(ij, ji);
}

#[test]
fn product_is_associative_on_exact_values() {
    let i = Quaternion { a: 0, b: S, c: 0, d: 0 };
    let j = Quaternion { a: 0, b: 0, c: S, d: 0 };
    let k = Quaternion { a: 0, b: 0, c: 0, d: S };
    let left = i.product(j).product(k);
    let right = i.product(j.product(k));
    assert_eq!(left, right);
    assert_eq!((left.a, left.b, left.c, left.d), (-S, 0, 0, 0));
    let q1 = Quaternion { a: S, b: 2 * S, c: -S, d: 3 * S };
    let q2 = Quaternion { a: -2 * S, b: S, c: S, d: 0 };
    let q3 = Quaternion { a: S, b: 0, c: 2 * S, d: -S };
    assert_eq!(q1.product(q2).product(q3), q1.product(q2.product(q3)));
}

#[test]
fn reciprocal_of_unit_vector_quaternion() {
    let i = Quaternion { a: 0, b: S, c: 0, d: 0 };
    let r = i.recip();
    assert_eq!((r.a, r.b, r.c, r.d), (0, -S, 0, 0));
}

#[test]
fn embed_extract_round_trip() {
    let v = v3(12345, -678, 9);
    assert_eq!(Quaternion::from_v3(v).to_v3(), v);
    let q = Quaternion::from_v3(v);
    assert_eq!(q.a, 0);
}

#[test]
fn center_point_maps_to_viewport_center() {
    let ndc = project(v3(0, 0, 3 * S), 49152);
    assert_eq!(ndc, Vector2 { x: 0, y: 0 });
    let px = to_screen(ndc, 800 * S, 600 * S);
    assert_eq!(px, Vector2 { x: 400 * S, y: 300 * S });
}

#[test]
fn corners_map_to_viewport_corners() {
    let low = to_screen(Vector2 { x: -S, y: -S }, 800 * S, 600 * S);
    assert_eq!(low, Vector2 { x: 0, y: 0 });
    let high = to_screen(Vector2 { x: S, y: S }, 800 * S, 600 * S);
    assert_eq!(high, Vector2 { x: 800 * S, y: 600 * S });
}

#[test]
fn frame_driver_accumulates_linearly() {
    let dt = S / 30;
    let speed = 2 * S;
    let mut st = AnimationState::start();
    for _ in 0..15 {
        st = st.advance(dt, speed);
    }
    let once = AnimationState::start().advance(15 * dt, speed);
    assert_eq!(st.angle, once.angle);
    assert!((st.angle - S).abs() <= 16);
}

#[test]
fn translation_adds_componentwise() {
    assert_eq!(translate(v3(1, 2, 3), v3(40, 50, 60)), v3(41, 52, 63));
}

#[test]
fn cube_geometry_is_well_formed() {
    assert_eq!(cube_vertex(0), v3(-S, S, S));
    assert_eq!(cube_vertex(6), v3(S, -S, -S));
    assert_eq!(cube_edge(8), (0, 4));
    for i in 0..CUBE_EDGES {
        let (a, b) = cube_edge(i);
        assert!(a < CUBE_VERTICES && b < CUBE_VERTICES && a != b);
    }
}
