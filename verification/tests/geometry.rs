use rayshot::geometry::{Coord, Pos, Rect};

fn c(v: f32) -> Coord {
    Coord { bits: v.to_bits() }
}

fn p(x: f32, y: f32) -> Pos {
    Pos { x: c(x), y: c(y) }
}

const VALUES: [f32; 14] = [
    0.0,
    -0.0,
    1.0,
    -1.0,
    0.5,
    1e-40,
    -1e-40,
    3.4e38,
    -3.4e38,
    f32::INFINITY,
    f32::NEG_INFINITY,
    f32::NAN,
    16.0,
    15.999999,
];

#[test]
fn comparisons_agree_with_the_numbers() {
    for a in VALUES {
        for b in VALUES {
            assert_eq!(c(a).le(c(b)), a <= b, "{a} <= {b}");
            assert_eq!(c(a).lt(c(b)), a < b, "{a} < {b}");
        }
    }
    assert!(!c(-f32::NAN).le(c(0.0)));
}

#[test]
fn smaller_and_larger_agree_with_the_numbers() {
    for a in VALUES {
        for b in VALUES {
            let lo = f32::from_bits(c(a).min(c(b)).bits);
            let hi = f32::from_bits(c(a).max(c(b)).bits);
            assert!(lo == a.min(b) || (a.is_nan() && b.is_nan() && lo.is_nan()));
            assert!(hi == a.max(b) || (a.is_nan() && b.is_nan() && hi.is_nan()));
        }
    }
}

#[test]
fn rectangle_of_two_points() {
    let r = Rect::from_two_pos(p(5.0, 1.0), p(2.0, 7.0));
    assert_eq!(r, Rect { min: p(2.0, 1.0), max: p(5.0, 7.0) });
    assert!(r.contains(p(5.0, 1.0)) && r.contains(p(2.0, 7.0)) && r.contains(p(3.0, 3.0)));
    assert!(!r.contains(p(5.1, 3.0)) && !r.contains(p(3.0, 0.9)) && !r.contains(p(f32::NAN, 3.0)));
}

#[test]
fn rectangles_agree_with_egui() {
    let pts = [(0.0, 0.0), (3.0, -2.0), (10.5, 4.25), (-1.0, 8.0)];
    for a in pts {
        for b in pts {
            let r = Rect::from_two_pos(p(a.0, a.1), p(b.0, b.1));
            let e = egui::Rect::from_two_pos(egui::pos2(a.0, a.1), egui::pos2(b.0, b.1));
            assert_eq!(r, Rect { min: p(e.min.x, e.min.y), max: p(e.max.x, e.max.y) });
            for q in pts {
                assert_eq!(r.contains(p(q.0, q.1)), e.contains(egui::pos2(q.0, q.1)));
            }
        }
    }
}

#[test]
fn intersection_holds_shared_points() {
    let a = Rect { min: p(0.0, 0.0), max: p(10.0, 10.0) };
    let b = Rect { min: p(4.0, -5.0), max: p(20.0, 6.0) };
    assert_eq!(a.intersect(b), Rect { min: p(4.0, 0.0), max: p(10.0, 6.0) });
    assert!(a.intersect(b).contains(p(4.0, 6.0)));
    assert!(!a.intersect(b).contains(p(3.0, 6.0)));
}
