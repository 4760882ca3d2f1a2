use rs_type::color::{Color, str2col};
use rs_type::geometry::{ColoredTriangles, Point};

fn pt(x: i64, y: i64) -> Point {
    Point { x, y }
}

#[test]
fn colored_triangles_to_string() {
    let ct = ColoredTriangles {
        colors: vec![Color { r: 0, g: 0, b: 255 }],
        triangles: vec![vec![pt(0, 0), pt(100, 0), pt(100, 100)]],
    };
    assert_eq!(ct.to_text(), "255 0,0 1,0 1,1\n".to_owned());
}

#[test]
fn colored_triangles_from_string() {
    let s = ColoredTriangles::from_text("255 0.0,0.0 1.0,0.0 1.0,1.0\n").unwrap();
    assert_eq!(
        s,
        ColoredTriangles {
            colors: vec![Color { r: 0, g: 0, b: 255 }],
            triangles: vec![vec![pt(0, 0), pt(100, 0), pt(100, 100)]],
        }
    );
}

#[test]
fn round_trip_is_byte_stable() {
    let ct = ColoredTriangles {
        colors: vec![Color { r: 255, g: 0, b: 0 }, Color { r: 0, g: 128, b: 7 }],
        triangles: vec![
            vec![pt(-5, 3), pt(10, 0), pt(0, 10)],
            vec![pt(1, 2), pt(3, 4), pt(5, 6), pt(7, 8), pt(9, 10), pt(11, 12)],
        ],
    };
    let s1 = ct.to_text();
    let back = ColoredTriangles::from_text(&s1).unwrap();
    assert_eq!(back, ct);
    let s2 = back.to_text();
    assert_eq!(s1, s2);
}

#[test]
fn from_text_empty_is_empty_store() {
    let ct = ColoredTriangles::from_text("").unwrap();
    assert_eq!(ct.colors.len(), 0);
    assert_eq!(ct.triangles.len(), 0);
}

#[test]
fn from_text_merges_repeated_colors() {
    let ct = ColoredTriangles::from_text("7 0,0 1,0 1,1\n7 2,2 3,2 3,3\n").unwrap();
    assert_eq!(ct.colors.len(), 1);
    assert_eq!(ct.triangles[0].len(), 6);
    assert_eq!(ct.to_text(), "7 0,0 1,0 1,1 2,2 3,2 3,3\n");
}

#[test]
fn from_text_color_only_line() {
    let ct = ColoredTriangles::from_text("9 \n").unwrap();
    assert_eq!(ct.colors.len(), 1);
    assert_eq!(ct.triangles[0].len(), 0);
}

#[test]
fn from_text_rejects_malformed_lines() {
    assert!(ColoredTriangles::from_text("x 0,0 1,0 1,1\n").is_none());
    assert!(ColoredTriangles::from_text("255\n").is_none());
    assert!(ColoredTriangles::from_text("255 0,0\n").is_none());
    assert!(ColoredTriangles::from_text("255 0.505,0 1,0 1,1\n").is_none());
    assert!(ColoredTriangles::from_text("\n").is_none());
}

#[test]
fn from_text_reads_fractional_pixels_as_units() {
    let ct = ColoredTriangles::from_text("255 -2.00,0 1.5,0 0.25,1.000\n").unwrap();
    assert_eq!(ct.triangles[0], vec![pt(-200, 0), pt(150, 0), pt(25, 100)]);
}

#[test]
fn to_text_writes_shortest_fraction() {
    let ct = ColoredTriangles {
        colors: vec![Color { r: 0, g: 0, b: 7 }],
        triangles: vec![vec![pt(150, 0), pt(25, -205), pt(0, 300)]],
    };
    let s = ct.to_text();
    assert_eq!(s, "7 1.5,0 0.25,-2.05 0,3\n");
    assert_eq!(ColoredTriangles::from_text(&s).unwrap(), ct);
}

#[test]
fn str2col_reads_hex_notation() {
    assert_eq!(str2col("#ff00aa"), Color { r: 255, g: 0, b: 170 });
    assert_eq!(str2col("010203"), Color { r: 1, g: 2, b: 3 });
    assert_eq!(str2col("#FFFFFF"), Color { r: 255, g: 255, b: 255 });
}

#[test]
fn rgb_u32_round_trip() {
    let c = Color { r: 18, g: 52, b: 86 };
    assert_eq!(c.to_rgb_u32(), 0x123456);
    assert_eq!(Color::from_rgb_u32(0x123456), c);
    assert_eq!(Color::from_rgb_u32(0xFF123456), c);
}
