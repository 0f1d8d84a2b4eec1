use vstd::prelude::*;

verus! {

/// A distance in a text buffer: whole lines crossed, then bytes into the last one.
#[derive(Clone, Copy, Debug, Default, PartialEq, Eq, Structural, Hash)]
pub struct Extent {
    pub line_count: usize,
    pub byte_count: usize,
}

/// A position in a text buffer: a line and a byte offset within that line.
#[derive(Clone, Copy, Debug, Default, PartialEq, Eq, Structural, Hash, PartialOrd, Ord)]
pub struct Point {
    pub line_index: usize,
    pub byte_index: usize,
}

/// A range of points; `start` never comes after `end`.
#[derive(Clone, Copy, Debug, PartialEq, Eq, Structural, Hash)]
pub struct Range {
    pub start: Point,
    pub end: Point,
}

/// Which side of an insertion a point at the very insertion point ends up on.
#[derive(Clone, Copy, Debug, PartialEq, Eq, Structural, Hash)]
pub enum Drift {
    Before,
    After,
}

/// An edit: text of the given extent inserted at a point, or a range deleted.
#[derive(Clone, Copy, Debug, PartialEq, Eq, Structural, Hash)]
pub enum ChangeKind {
    Insert(Point, Extent),
    Delete(Range),
}

#[derive(Clone, Copy, Debug, PartialEq, Eq, Structural, Hash)]
pub struct Change {
    pub drift: Drift,
    pub kind: ChangeKind,
}

/// `a` comes strictly before `b`, lines first, then bytes.
pub open spec fn point_lt(a: Point, b: Point) -> bool {
    a.line_index < b.line_index || (a.line_index == b.line_index && a.byte_index < b.byte_index)
}

pub open spec fn point_le(a: Point, b: Point) -> bool {
    point_lt(a, b) || a == b
}

/// The point reached by moving `e` forward from `p`.
pub open spec fn add_spec(p: Point, e: Extent) -> (int, int) {
    if e.line_count == 0 {
        (p.line_index as int, p.byte_index + e.byte_count)
    } else {
        (p.line_index + e.line_count, e.byte_count as int)
    }
}

/// The extent from `q` forward to `p`.
pub open spec fn sub_spec(p: Point, q: Point) -> (int, int) {
    if p.line_index == q.line_index {
        (0, p.byte_index - q.byte_index)
    } else {
        (p.line_index - q.line_index, p.byte_index as int)
    }
}

pub open spec fn add_fits(p: Point, e: Extent) -> bool {
    &&& (e.line_count == 0 ==> p.byte_index + e.byte_count <= usize::MAX)
    &&& (e.line_count != 0 ==> p.line_index + e.line_count <= usize::MAX)
}

pub open spec fn point_of(pair: (int, int)) -> Point {
    Point { line_index: pair.0 as usize, byte_index: pair.1 as usize }
}

pub open spec fn extent_of(pair: (int, int)) -> Extent {
    Extent { line_count: pair.0 as usize, byte_count: pair.1 as usize }
}

pub open spec fn min_point(a: Point, b: Point) -> Point {
    if point_le(a, b) { a } else { b }
}

/// Where a point lands once `change` has been made to the text around it.
pub open spec fn apply_change_spec(p: Point, change: Change) -> Point {
    match change.kind {
        ChangeKind::Insert(at, extent) => {
            if point_lt(p, at) {
                p
            } else if p == at {
                match change.drift {
                    Drift::Before => point_of(add_spec(p, extent)),
                    Drift::After => p,
                }
            } else {
                point_of(add_spec(p, extent))
            }
        },
        ChangeKind::Delete(range) => {
            if point_lt(p, range.start) {
                p
            } else {
                point_of(add_spec(range.start, extent_of(sub_spec(p, min_point(range.end, p)))))
            }
        },
    }
}

/// The arithmetic of `apply_change` stays within `usize`.
pub open spec fn change_fits(p: Point, change: Change) -> bool {
    match change.kind {
        ChangeKind::Insert(at, extent) => add_fits(p, extent),
        ChangeKind::Delete(range) => point_le(range.start, range.end) && (point_le(range.start, p)
            ==> add_fits(range.start, extent_of(sub_spec(p, min_point(range.end, p))))),
    }
}

impl Point {
    pub fn zero() -> (r: Self)
        ensures
            r.line_index == 0 && r.byte_index == 0,
    {
        Point { line_index: 0, byte_index: 0 }
    }

    pub fn lt(&self, other: &Point) -> (r: bool)
        ensures
            r == point_lt(*self, *other),
    {
        self.line_index < other.line_index || (self.line_index == other.line_index
            && self.byte_index < other.byte_index)
    }

    pub fn add(self, extent: Extent) -> (r: Point)
        requires
            add_fits(self, extent),
        ensures
            r == point_of(add_spec(self, extent)),
    {
        if extent.line_count == 0 {
            Point { line_index: self.line_index, byte_index: self.byte_index + extent.byte_count }
        } else {
            Point { line_index: self.line_index + extent.line_count, byte_index: extent.byte_count }
        }
    }

    pub fn add_assign(&mut self, extent: Extent)
        requires
            add_fits(*old(self), extent),
        ensures
            *final(self) == point_of(add_spec(*old(self), extent)),
    {
        *self = self.add(extent);
    }

    pub fn sub(self, other: Point) -> (r: Extent)
        requires
            point_le(other, self),
        ensures
            r == extent_of(sub_spec(self, other)),
    {
        if self.line_index == other.line_index {
            Extent { line_count: 0, byte_count: self.byte_index - other.byte_index }
        } else {
            Extent { line_count: self.line_index - other.line_index, byte_count: self.byte_index }
        }
    }

    pub fn apply_change(self, change: &Change) -> (r: Self)
        requires
            change_fits(self, *change),
        ensures
            r == apply_change_spec(self, *change),
    {
        match change.kind {
            ChangeKind::Insert(at, extent) => {
                if self.lt(&at) {
                    self
                } else if self == at {
                    match change.drift {
                        Drift::Before => self.add(extent),
                        Drift::After => self,
                    }
                } else {
                    self.add(extent)
                }
            },
            ChangeKind::Delete(range) => {
                if self.lt(&range.start) {
                    self
                } else {
                    let end = if range.end.lt(&self) || range.end == self { range.end } else { self };
                    range.start.add(self.sub(end))
                }
            },
        }
    }
}

} // verus!
