use delaunay_mesh::simulation::Point;
use delaunay_mesh::simulation::Simulation;
use delaunay_mesh::simulation::SimulationSettings;
use delaunay_mesh::simulation::UNIT;
use delaunay_mesh::triangulation::in_circle_coords;
use delaunay_mesh::triangulation::triangulate;
use delaunay_mesh::triangulation::Edge;
use delaunay_mesh::triangulation::Triangle;

fn plain_point(x: i64, y: i64) -> Point {
    Point::new(x, y, UNIT, 0, 0, 0, 0)
}

#[test]
fn edge_identity_is_unordered() {
    assert!(Edge(1, 2) == Edge(1, 2));
    assert!(Edge(1, 2) == Edge(2, 1));
    assert!(Edge(1, 2) != Edge(1, 3));
    assert!(Edge(0, 7) == Edge(7, 0));
}

#[test]
fn triangle_identity_is_unordered() {
    let t = Triangle(1, 2, 3);
    assert!(t == Triangle(1, 2, 3));
    assert!(t == Triangle(1, 3, 2));
    assert!(t == Triangle(2, 1, 3));
    assert!(t == Triangle(2, 3, 1));
    assert!(t == Triangle(3, 1, 2));
    assert!(t == Triangle(3, 2, 1));
    assert!(t != Triangle(1, 2, 4));
    assert!(t != Triangle(4, 5, 6));
}

#[test]
fn in_circle_exact_cases() {
    // Circle through (0,0), (4,0), (0,4): centre (2,2), squared radius 8.
    assert!(in_circle_coords(2, 2, 0, 0, 4, 0, 0, 4)); // centre: inside
    assert!(in_circle_coords(4, 4, 0, 0, 4, 0, 0, 4)); // on the circle: inclusive
    assert!(!in_circle_coords(5, 5, 0, 0, 4, 0, 0, 4)); // outside
    assert!(!in_circle_coords(-1, -1, 0, 0, 4, 0, 0, 4)); // outside
}

#[test]
fn in_circle_degenerate_is_explicit_false() {
    // Collinear triple: no circumcircle, the test reports false.
    assert!(!in_circle_coords(1, 1, 0, 0, 1, 1, 2, 2));
    // Coincident vertices: likewise.
    assert!(!in_circle_coords(0, 0, 3, 3, 3, 3, 5, 1));
}

fn general_points() -> Vec<Point> {
    vec![
        plain_point(2 * UNIT, 3 * UNIT),
        plain_point(71 * UNIT, 5 * UNIT),
        plain_point(37 * UNIT, 83 * UNIT),
        plain_point(13 * UNIT, 59 * UNIT),
        plain_point(89 * UNIT, 97 * UNIT),
    ]
}

#[test]
fn index_validity() {
    let pts = general_points();
    let tris = triangulate(&pts);
    assert!(!tris.is_empty());
    for t in &tris {
        assert!(t.0 < pts.len());
        assert!(t.1 < pts.len());
        assert!(t.2 < pts.len());
        assert!(t.0 != t.1 && t.1 != t.2 && t.0 != t.2);
    }
}

#[test]
fn empty_circle_property() {
    let pts = general_points();
    let tris = triangulate(&pts);
    assert!(!tris.is_empty());
    for t in &tris {
        let a = &pts[t.0];
        let b = &pts[t.1];
        let c = &pts[t.2];
        for (qi, q) in pts.iter().enumerate() {
            if qi == t.0 || qi == t.1 || qi == t.2 {
                continue;
            }
            // The inclusive test failing means q is strictly outside, which
            // implies the strict empty-circle property for these points.
            assert!(!in_circle_coords(
                q.position.x,
                q.position.y,
                a.position.x,
                a.position.y,
                b.position.x,
                b.position.y,
                c.position.x,
                c.position.y,
            ));
        }
    }
}

#[test]
fn determinism_of_triangulation() {
    let pts = general_points();
    let first = triangulate(&pts);
    let second = triangulate(&pts);
    assert_eq!(first.len(), second.len());
    for i in 0..first.len() {
        assert!(first[i] == second[i]);
        assert_eq!(first[i].0, second[i].0);
        assert_eq!(first[i].1, second[i].1);
        assert_eq!(first[i].2, second[i].2);
    }
}

#[test]
fn wrap_around() {
    let settings = SimulationSettings::new(0, 0, 10 * UNIT, 0);
    let mut sim = Simulation::new(100 * UNIT, 100 * UNIT, UNIT, settings);
    // A point ten raw steps short of the right edge, heading straight +x at
    // two units per second, stepped for half a second: one unit of motion.
    let eps: i64 = 10;
    sim.points.push(Point::new(
        100 * UNIT - eps,
        40 * UNIT,
        UNIT,
        2 * UNIT,
        UNIT,
        0,
        1000 * UNIT,
    ));
    sim.update_points(UNIT / 2);
    // step = dir.x * speed * delta / UNIT^2 = one unit = 65536 raw steps.
    let p = &sim.points[0];
    assert_eq!(p.position.x, 65536 - eps);
    assert_eq!(p.position.y, 40 * UNIT);
    assert_eq!(p.dir.x, UNIT);
    assert_eq!(p.dir.y, 0);
}

#[test]
fn static_points_never_move() {
    let settings = SimulationSettings::new(50 * UNIT, UNIT / 5, 5 * UNIT, UNIT / 2);
    let mut sim = Simulation::new(100 * UNIT, 100 * UNIT, 60 * UNIT, settings);
    sim.add_static_point(0, 0);
    sim.add_static_point(100 * UNIT, 0);
    sim.add_static_point(100 * UNIT, 100 * UNIT);
    sim.add_static_point(0, 100 * UNIT);
    for _ in 0..25 {
        sim.tick(UNIT / 10);
    }
    assert_eq!(sim.points[0].position.x, 0);
    assert_eq!(sim.points[0].position.y, 0);
    assert_eq!(sim.points[1].position.x, 100 * UNIT);
    assert_eq!(sim.points[1].position.y, 0);
    assert_eq!(sim.points[2].position.x, 100 * UNIT);
    assert_eq!(sim.points[2].position.y, 100 * UNIT);
    assert_eq!(sim.points[3].position.x, 0);
    assert_eq!(sim.points[3].position.y, 100 * UNIT);
    assert_eq!(sim.points[0].speed, 0);
}

#[test]
fn square_corners_give_two_triangles() {
    let settings = SimulationSettings::new(50 * UNIT, 0, 5 * UNIT, 0);
    // Framerate of one frame per second; a one-second tick runs one step.
    let mut sim = Simulation::new(100 * UNIT, 100 * UNIT, UNIT, settings);
    sim.add_static_point(0, 0);
    sim.add_static_point(100 * UNIT, 0);
    sim.add_static_point(100 * UNIT, 100 * UNIT);
    sim.add_static_point(0, 100 * UNIT);
    sim.tick(UNIT);
    assert_eq!(sim.triangles.len(), 2);
    let t0 = sim.triangles[0];
    let t1 = sim.triangles[1];
    let mut seen = [0usize; 4];
    for t in [t0, t1] {
        assert!(t.0 < 4 && t.1 < 4 && t.2 < 4);
        assert!(t.0 != t.1 && t.1 != t.2 && t.0 != t.2);
        seen[t.0] += 1;
        seen[t.1] += 1;
        seen[t.2] += 1;
    }
    // Every corner is used; the two triangles share exactly one diagonal,
    // so exactly two corners appear in both triangles.
    assert!(seen.iter().all(|&c| c >= 1));
    assert_eq!(seen.iter().sum::<usize>(), 6);
    assert_eq!(seen.iter().filter(|&&c| c == 2).count(), 2);
}

#[test]
fn frame_cap_limits_catch_up() {
    let settings = SimulationSettings::new(50 * UNIT, 0, 5 * UNIT, 0);
    // Framerate 60: the fixed increment is 2^32 / (60 * UNIT) = 1092 raw.
    let mut sim = Simulation::new(100 * UNIT, 100 * UNIT, 60 * UNIT, settings);
    sim.tick(UNIT);
    // One whole second of lag is 60 increments, but only 10 steps run.
    assert_eq!(sim.current_tick, UNIT);
    assert_eq!(sim.last_tick, 10 * 1092);
}

#[test]
fn moving_point_sampling() {
    // Zero variance pins the sampled speed and retarget interval exactly.
    let settings = SimulationSettings::new(50 * UNIT, 0, 5 * UNIT, 0);
    let mut sim = Simulation::new(100 * UNIT, 100 * UNIT, 60 * UNIT, settings);
    sim.add_point(30 * UNIT, 40 * UNIT);
    let p = &sim.points[0];
    assert_eq!(p.position.x, 30 * UNIT);
    assert_eq!(p.position.y, 40 * UNIT);
    assert_eq!(p.speed, 50 * UNIT);
    assert_eq!(p.dir_timer, 5 * UNIT);
    assert!(p.size >= UNIT / 2 && p.size < UNIT + UNIT / 2);
    // The restricted heading band always points downward in y.
    assert!(p.dir.y < 0);
    assert!(p.dir.x >= -2 * UNIT && p.dir.x <= 2 * UNIT);
    assert!(p.dir.y >= -2 * UNIT);
}

#[test]
fn triangulation_tracks_moving_points() {
    let settings = SimulationSettings::new(5 * UNIT, 0, 50 * UNIT, 0);
    let mut sim = Simulation::new(100 * UNIT, 100 * UNIT, UNIT, settings);
    sim.add_static_point(0, 0);
    sim.add_static_point(100 * UNIT, 0);
    sim.add_static_point(100 * UNIT, 100 * UNIT);
    sim.add_static_point(0, 100 * UNIT);
    sim.add_point(50 * UNIT, 50 * UNIT);
    sim.tick(UNIT);
    // The stored triangles are the triangulation of the stored points.
    let direct = triangulate(&sim.points);
    assert_eq!(direct.len(), sim.triangles.len());
    for i in 0..direct.len() {
        assert!(direct[i] == sim.triangles[i]);
    }
    for t in &sim.triangles {
        assert!(t.0 < 5 && t.1 < 5 && t.2 < 5);
    }
}

#[test]
fn out_of_domain_coordinate_wraps_in() {
    let settings = SimulationSettings::new(0, 0, 10 * UNIT, 0);
    let mut sim = Simulation::new(100 * UNIT, 100 * UNIT, UNIT, settings);
    // A point left of the domain is pulled in by one domain width on its
    // first step, even with zero speed: the wrap tests the raw coordinate.
    sim.points.push(Point::new(-5 * UNIT, 50 * UNIT, UNIT, 0, 0, 0, 1000 * UNIT));
    sim.update_points(UNIT);
    assert_eq!(sim.points[0].position.x, 95 * UNIT);
    assert_eq!(sim.points[0].position.y, 50 * UNIT);
}

#[test]
fn retarget_timer_counts_down() {
    let settings = SimulationSettings::new(0, 0, 10 * UNIT, 0);
    let mut sim = Simulation::new(100 * UNIT, 100 * UNIT, UNIT, settings);
    sim.points.push(Point::new(50 * UNIT, 50 * UNIT, UNIT, 0, UNIT, -UNIT, UNIT));
    sim.update_points(UNIT / 2);
    // Half a second consumed: the timer halves and the heading is kept.
    assert_eq!(sim.points[0].dir_timer, UNIT / 2);
    assert_eq!(sim.points[0].dir.x, UNIT);
    assert_eq!(sim.points[0].dir.y, -UNIT);
    // The next half second expires the timer: a fresh heading (downward in
    // y) and a fresh interval, here pinned to ten seconds by zero variance.
    sim.update_points(UNIT / 2);
    assert_eq!(sim.points[0].dir_timer, 10 * UNIT);
    assert!(sim.points[0].dir.y < 0);
}
