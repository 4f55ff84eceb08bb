use cp_rs::geometry::Point2D;
use cp_rs::io::Io;

#[test]
fn point_new_holds_coordinates() {
    let p = Point2D::new(1, 2);
    assert_eq!(p.x, 1);
    assert_eq!(p.y, 2);
}

#[test]
fn point_arithmetic() {
    let p = Point2D::new(1, 2);
    let q = Point2D::new(3, 4);
    let s = p.add(q);
    assert_eq!((s.x, s.y), (4, 6));
    let d = q.sub(p);
    assert_eq!((d.x, d.y), (2, 2));
    let m = p.mul(2);
    assert_eq!((m.x, m.y), (2, 4));
}

#[test]
fn point_division_and_remainder() {
    let p = Point2D::new(2, 4);
    let q = p.div(2);
    assert_eq!((q.x, q.y), (1, 2));
    let p = Point2D::new(4, 5);
    let r = p.rem(3);
    assert_eq!((r.x, r.y), (1, 2));
    // Truncation toward zero, remainder with the dividend's sign.
    let p = Point2D::new(-7, 7);
    let q = p.div(2);
    assert_eq!((q.x, q.y), (-3, 3));
    let r = p.rem(2);
    assert_eq!((r.x, r.y), (-1, 1));
    let mut p = Point2D::new(2, 4);
    p.div_assign(2);
    assert_eq!((p.x, p.y), (1, 2));
    let mut p = Point2D::new(4, 5);
    p.rem_assign(3);
    assert_eq!((p.x, p.y), (1, 2));
}

#[test]
fn point_assign_arithmetic() {
    let mut p = Point2D::new(1, 2);
    p.add_assign(Point2D::new(3, 4));
    assert_eq!((p.x, p.y), (4, 6));
    p.sub_assign(Point2D::new(1, 1));
    assert_eq!((p.x, p.y), (3, 5));
    p.mul_assign(2);
    assert_eq!((p.x, p.y), (6, 10));
}

#[test]
fn point_rotations() {
    let mut p = Point2D::new(1, 2);
    p.rotcw();
    assert_eq!((p.x, p.y), (2, -1));
    let mut p = Point2D::new(1, 2);
    p.rotccw();
    assert_eq!((p.x, p.y), (-2, 1));
}

#[test]
fn rotating_four_times_returns_home() {
    let mut p = Point2D::new(5, -7);
    let start = p;
    p.rotcw();
    p.rotcw();
    p.rotcw();
    p.rotcw();
    assert_eq!(p, start);
}

#[test]
fn point_writes_as_coordinate_pair() {
    let mut io = Io::from_str("");
    io.write(Point2D::new(1, -2));
    io.flush();
    assert_eq!(io.take_flushed(), "(1, -2)");
}
