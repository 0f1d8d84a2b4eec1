use live_lexer::point::{Change, ChangeKind, Drift, Extent, Point, Range};

fn p(line_index: usize, byte_index: usize) -> Point {
    Point { line_index, byte_index }
}

#[test]
fn zero_is_origin() {
    assert_eq!(Point::zero(), p(0, 0));
}

#[test]
fn insert_moves_points_after_it() {
    let ins = |drift| Change { drift, kind: ChangeKind::Insert(p(1, 4), Extent { line_count: 0, byte_count: 3 }) };
    assert_eq!(p(1, 2).apply_change(&ins(Drift::Before)), p(1, 2));
    assert_eq!(p(1, 4).apply_change(&ins(Drift::Before)), p(1, 7));
    assert_eq!(p(1, 4).apply_change(&ins(Drift::After)), p(1, 4));
    assert_eq!(p(1, 9).apply_change(&ins(Drift::After)), p(1, 12));
    let lines = Change { drift: Drift::Before, kind: ChangeKind::Insert(p(0, 0), Extent { line_count: 2, byte_count: 5 }) };
    assert_eq!(p(3, 1).apply_change(&lines), p(5, 5));
}

#[test]
fn delete_pulls_points_back() {
    let del = Change { drift: Drift::Before, kind: ChangeKind::Delete(Range { start: p(1, 2), end: p(2, 3) }) };
    assert_eq!(p(0, 9).apply_change(&del), p(0, 9));
    assert_eq!(p(1, 5).apply_change(&del), p(1, 2));
    assert_eq!(p(2, 7).apply_change(&del), p(1, 6));
    assert_eq!(p(4, 1).apply_change(&del), p(3, 1));
}

#[test]
fn add_and_sub_are_inverse_on_same_line() {
    let a = p(3, 4);
    let e = Extent { line_count: 0, byte_count: 6 };
    assert_eq!(a.add(e), p(3, 10));
    assert_eq!(p(3, 10).sub(a), e);
    assert_eq!(p(5, 2).sub(a), Extent { line_count: 2, byte_count: 2 });
    let mut b = a;
    b.add_assign(Extent { line_count: 1, byte_count: 0 });
    assert_eq!(b, p(4, 0));
}
