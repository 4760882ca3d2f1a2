use rs_type::geometry::{ColoredTriangles, Point};

fn pt(x: i64, y: i64) -> Point {
    Point { x, y }
}

fn demo_store() -> ColoredTriangles {
    let mut ct = ColoredTriangles::new();
    ct.add_color("#ff0000");
    ct.add_color("#00ff00");
    let mut red = vec![pt(0, 0), pt(10, 0), pt(0, 10)];
    ct.triangles[0].append(&mut red);
    let mut green = vec![pt(100, 100), pt(110, 100), pt(100, 110)];
    ct.triangles[1].append(&mut green);
    ct
}

#[test]
fn add_color_is_idempotent() {
    let mut ct = ColoredTriangles::new();
    ct.add_color("#123456");
    ct.add_color("#123456");
    assert_eq!(ct.colors.len(), 1);
    assert_eq!(ct.triangles.len(), 1);
    ct.add_color("#654321");
    let colors_before = ct.colors.len();
    let triangles_before = ct.triangles.len();
    ct.add_color("#654321");
    assert_eq!(ct.colors.len(), colors_before);
    assert_eq!(ct.triangles.len(), triangles_before);
}

#[test]
fn nearest_is_sorted_and_bounded() {
    let ct = demo_store();
    let r = ct.nearest(4, pt(1, 1));
    assert_eq!(r.len(), 4);
    for w in r.windows(2) {
        assert!(w[0].2 <= w[1].2);
    }
    assert_eq!(r[0], (0, 0, 2));
    let all = ct.nearest(100, pt(1, 1));
    assert_eq!(all.len(), 6);
    for w in all.windows(2) {
        assert!(w[0].2 <= w[1].2);
    }
}

#[test]
fn nearest_breaks_ties_by_encounter_order() {
    let mut ct = ColoredTriangles::new();
    ct.add_color("#ffffff");
    let mut pts = vec![pt(5, 0), pt(-5, 0), pt(0, 5)];
    ct.triangles[0].append(&mut pts);
    let r = ct.nearest(3, pt(0, 0));
    assert_eq!(r, vec![(0, 0, 25), (0, 1, 25), (0, 2, 25)]);
}

#[test]
fn colliding_empty_store_is_none() {
    let ct = ColoredTriangles::new();
    assert_eq!(ct.colliding(pt(0, 0)), None);
}

#[test]
fn colliding_finds_centroid_and_misses_outside() {
    let ct = demo_store();
    assert_eq!(ct.colliding(pt(3, 3)), Some((0, 0)));
    assert_eq!(ct.colliding(pt(103, 103)), Some((1, 0)));
    assert_eq!(ct.colliding(pt(50, 50)), None);
    assert_eq!(ct.colliding(pt(0, 0)), Some((0, 0)));
}

#[test]
fn colliding_finds_the_exact_centroid() {
    let mut ct = ColoredTriangles::new();
    ct.add_color("#ffffff");
    let mut pts = vec![pt(0, 0), pt(9, 0), pt(0, 9), pt(30, 30), pt(36, 33), pt(33, 42)];
    ct.triangles[0].append(&mut pts);
    assert_eq!(ct.colliding(pt(3, 3)), Some((0, 0)));
    assert_eq!(ct.colliding(pt(33, 35)), Some((0, 1)));
}

#[test]
fn remove_triangle_deletes_three_points() {
    let mut ct = demo_store();
    ct.remove_triangle(0, 0);
    assert_eq!(ct.triangles[0].len(), 0);
    assert_eq!(ct.triangles[1].len(), 3);
}

#[test]
fn translate_shifts_every_point() {
    let mut ct = demo_store();
    ct.translate(5, -2);
    assert_eq!(ct.triangles[0][0], pt(5, -2));
    assert_eq!(ct.triangles[1][2], pt(105, 108));
}

#[test]
fn scale_multiplies_and_rounds_toward_zero() {
    let mut ct = ColoredTriangles::new();
    ct.add_color("#ffffff");
    let mut pts = vec![pt(5, -5), pt(4, 0), pt(0, 4)];
    ct.triangles[0].append(&mut pts);
    ct.scale(5, 4, 5, 4);
    assert_eq!(ct.triangles[0][0], pt(6, -6));
    assert_eq!(ct.triangles[0][1], pt(5, 0));
    ct.scale(4, 5, 4, 5);
    assert_eq!(ct.triangles[0][1], pt(4, 0));
}
