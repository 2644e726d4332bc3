use raytracer::triangle::{is_ahead, meets_inside, share_a_plane};

type V = [f32; 3];

fn sub(a: V, b: V) -> V {
    [a[0] - b[0], a[1] - b[1], a[2] - b[2]]
}

fn dot(a: V, b: V) -> f32 {
    a[0] * b[0] + a[1] * b[1] + a[2] * b[2]
}

fn cross(a: V, b: V) -> V {
    [a[1] * b[2] - a[2] * b[1], a[2] * b[0] - a[0] * b[2], a[0] * b[1] - a[1] * b[0]]
}

fn unit(a: V) -> V {
    let length = dot(a, a).sqrt();
    [a[0] / length, a[1] / length, a[2] / length]
}

const TRIANGLE: [V; 3] = [[0.0, 0.0, 0.0], [1.0, 0.0, 0.0], [0.0, 1.0, 0.0]];

/// The shares of the second and third corner where the ray meets the
/// triangle, and the distance along the ray.
fn barycentric(triangle: [V; 3], origin: V, direction: V) -> Option<(f32, f32, f32)> {
    let [a, b, c] = triangle;
    let direction = unit(direction);
    let normal = unit(cross(sub(b, a), sub(c, b)));
    let e1 = sub(b, a);
    let e2 = sub(c, a);
    let ray_cross_e2 = cross(direction, e2);
    let det = dot(e1, ray_cross_e2);
    let s = sub(origin, a);
    let u = dot(s, ray_cross_e2) / det;
    let s_cross_e1 = cross(s, e1);
    let v = dot(direction, s_cross_e1) / det;
    let t = dot(e2, s_cross_e1) / det;
    let inside = meets_inside(
        dot(direction, normal).to_bits(),
        det.to_bits(),
        u.to_bits(),
        v.to_bits(),
        (u + v).to_bits(),
    );
    if inside {
        Some((u, v, t))
    } else {
        None
    }
}

/// The distance at which the ray meets the triangle, and the triangle's
/// normal.
fn intersection(triangle: [V; 3], origin: V, direction: V) -> Option<(f32, V)> {
    let [a, b, c] = triangle;
    let (_, _, t) = barycentric(triangle, origin, direction)?;
    if is_ahead(t.to_bits()) {
        Some((t, unit(cross(sub(b, a), sub(c, b)))))
    } else {
        None
    }
}

#[test]
fn ray_intersects_triangle_at_barycentric_coordinates() {
    let intersection = barycentric(TRIANGLE, [0.5, 0.5, 1.0], [0.0, 0.0, -2.0]);
    assert_eq!(Some((0.5, 0.5)), intersection.map(|(u, v, _)| (u, v)));
}

#[test]
fn ray_intersects_triangle() {
    let intersection = intersection(TRIANGLE, [0.5, 0.5, 1.0], [0.0, 0.0, -2.0]);
    assert_eq!(Some((1.0, [0.0, 0.0, 1.0])), intersection);
}

#[test]
fn ray_intersects_triangle_backside() {
    let intersection = intersection(TRIANGLE, [0.5, 0.5, -2.0], [0.0, 0.0, 1.0]);
    assert_eq!(Some((2.0, [0.0, 0.0, 1.0])), intersection);
}

#[test]
fn ray_missed_triangle() {
    let intersection = intersection(TRIANGLE, [2.0, 2.0, -1.0], [0.0, 0.0, 1.0]);
    assert_eq!(None, intersection);
}

#[test]
fn ray_parallel_to_triangle() {
    let intersection = intersection(TRIANGLE, [0.0, 0.0, 0.0], [1.0, 1.0, 0.0]);
    assert_eq!(None, intersection);
}

#[test]
fn ray_away_from_triangle_does_not_meet_it() {
    assert_eq!(None, intersection(TRIANGLE, [0.25, 0.25, 1.0], [0.0, 0.0, 1.0]));
    assert!(barycentric(TRIANGLE, [0.25, 0.25, 1.0], [0.0, 0.0, 1.0]).is_some());
}

#[test]
fn point_outside_the_triangle_is_refused() {
    let one = 1.0f32.to_bits();
    let bits = |value: f32| value.to_bits();
    assert!(meets_inside(one, one, bits(0.25), bits(0.25), bits(0.5)));
    assert!(meets_inside(one, one, bits(0.0), bits(0.0), bits(0.0)));
    assert!(meets_inside(one, one, bits(-0.0), bits(1.0), bits(1.0)));
    assert!(!meets_inside(one, one, bits(-0.25), bits(0.25), bits(0.0)));
    assert!(!meets_inside(one, one, bits(0.25), bits(-0.25), bits(0.0)));
    assert!(!meets_inside(one, one, bits(0.75), bits(0.5), bits(1.25)));
    assert!(!meets_inside(one, one, bits(0.5), bits(0.5), bits(1.0000001)));
    assert!(!meets_inside(one, one, bits(f32::NAN), bits(0.25), bits(f32::NAN)));
}

#[test]
fn ray_along_the_plane_is_refused() {
    let one = 1.0f32.to_bits();
    let quarter = 0.25f32.to_bits();
    let half = 0.5f32.to_bits();
    let bits = |value: f32| value.to_bits();
    assert!(!meets_inside(bits(0.0), one, quarter, quarter, half));
    assert!(!meets_inside(one, bits(0.0), quarter, quarter, half));
    assert!(!meets_inside(bits(1.0e-8), one, quarter, quarter, half));
    assert!(!meets_inside(one, bits(-1.0e-8), quarter, quarter, half));
    assert!(meets_inside(bits(f32::EPSILON), bits(-f32::EPSILON), quarter, quarter, half));
    assert!(meets_inside(bits(-1.0), bits(-1.0), quarter, quarter, half));
}

#[test]
fn point_is_ahead_beyond_the_smallest_step() {
    assert!(is_ahead(1.0f32.to_bits()));
    assert!(is_ahead((2.0 * f32::EPSILON).to_bits()));
    assert!(!is_ahead(f32::EPSILON.to_bits()));
    assert!(!is_ahead(0.0f32.to_bits()));
    assert!(!is_ahead((-1.0f32).to_bits()));
    assert!(!is_ahead(f32::NAN.to_bits()));
}

#[test]
fn triangles_share_a_plane_when_their_normals_agree() {
    assert!(share_a_plane(0.0f32.to_bits()));
    assert!(share_a_plane((f32::EPSILON / 2.0).to_bits()));
    assert!(!share_a_plane(f32::EPSILON.to_bits()));
    assert!(!share_a_plane(2.0f32.to_bits()));
    assert!(!share_a_plane(f32::NAN.to_bits()));
}
