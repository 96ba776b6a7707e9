use mir_dump::facts::{Interner, Location, Point, PointType};

fn point(block: usize, statement_index: usize, typ: PointType) -> Point {
    Point { location: Location { block, statement_index }, typ }
}

#[test]
fn interning_round_trips_and_is_stable() {
    let mut interner = Interner::new();
    let a = point(0, 0, PointType::Start);
    let b = point(0, 0, PointType::Mid);
    let c = point(2, 1, PointType::Start);
    let ia = interner.intern(a);
    let ib = interner.intern(b);
    let ic = interner.intern(c);
    assert_eq!((ia, ib, ic), (0, 1, 2));
    assert_eq!(interner.get_point(ia), a);
    assert_eq!(interner.get_point(ib), b);
    assert_eq!(interner.get_point(ic), c);
    assert_eq!(interner.intern(b), ib);
    assert_eq!(interner.len(), 3);
    assert_eq!(interner.get_point_index(&c), Some(2));
    assert_eq!(interner.get_point_index(&point(9, 9, PointType::Mid)), None);
}
