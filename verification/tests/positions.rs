use shoumei::Location;
use shoumei::Range;

fn loc(line: u32, col: u32) -> Location {
    Location::new(line, col)
}

fn range(a: (u32, u32), b: (u32, u32)) -> Range {
    Range { start: loc(a.0, a.1), end: loc(b.0, b.1) }
}

#[test]
fn location_new_sets_fields() {
    let l = loc(3, 9);
    assert!(l.line == 3);
    assert!(l.col == 9);
}

#[test]
fn union_covers_both_ranges() {
    let a = range((1, 4), (2, 0));
    let b = range((0, 7), (1, 5));
    let u = a.union(b);
    assert!(u == range((0, 7), (2, 0)));
}

#[test]
fn union_orders_by_line_then_column() {
    let a = range((2, 1), (2, 3));
    let b = range((2, 0), (2, 9));
    assert!(a.union(b) == range((2, 0), (2, 9)));
}

#[test]
fn union_is_commutative_on_values() {
    let a = range((1, 2), (3, 4));
    let b = range((0, 9), (2, 2));
    assert!(a.union(b) == b.union(a));
}

#[test]
fn union_is_associative_on_values() {
    let a = range((1, 2), (3, 4));
    let b = range((0, 9), (2, 2));
    let c = range((4, 0), (4, 1));
    assert!(a.union(b.union(c)) == a.union(b).union(c));
}

#[test]
fn union_with_itself_is_identity() {
    let a = range((5, 5), (6, 1));
    assert!(a.union(a) == a);
}

#[test]
fn from_location_makes_unit_range() {
    let l = loc(7, 11);
    let r = Range::from_location(l);
    assert!(r == range((7, 11), (7, 12)));
}
