//! Program points, their interner, and the input and output fact relations.

use vstd::prelude::*;

verus! {

/// A lifetime identifier.
pub type Region = usize;

/// A borrow-event identifier.
pub type Loan = usize;

/// The dense identifier of an interned program point.
pub type PointIndex = usize;

/// A local variable of the analysed function.
pub type Local = usize;

/// A basic-block identifier.
pub type BasicBlock = usize;

/// A position in the control-flow graph: a statement of a block, or its
/// terminator when `statement_index` equals the number of statements.
#[derive(Clone, Copy, Debug, PartialEq, Eq, Structural)]
pub struct Location {
    pub block: BasicBlock,
    pub statement_index: usize,
}

/// Before (`Start`) or after (`Mid`) the effects of a statement.
#[derive(Clone, Copy, Debug, PartialEq, Eq, Structural)]
pub enum PointType {
    Start,
    Mid,
}

/// A program point: a location and a phase.
#[derive(Clone, Copy, Debug, PartialEq, Eq, Structural)]
pub struct Point {
    pub location: Location,
    pub typ: PointType,
}

/// No point occurs twice.
pub open spec fn distinct_points(s: Seq<Point>) -> bool {
    forall|i: int, j: int| 0 <= i < s.len() && 0 <= j < s.len() && s[i] == s[j] ==> i == j
}

/// The sequence of points after interning `p` into `s`.
pub open spec fn interned(s: Seq<Point>, p: Point) -> Seq<Point> {
    if s.contains(p) {
        s
    } else {
        s.push(p)
    }
}

/// The identifier of `p` in `s`, when `s` holds it.
pub open spec fn point_id(s: Seq<Point>, p: Point) -> int {
    choose|i: int| 0 <= i < s.len() && s[i] == p
}

/// Bidirectional mapping between program points and dense identifiers:
/// the identifier of a point is its position in `points`.
pub struct Interner {
    points: Vec<Point>,
}

impl View for Interner {
    type V = Seq<Point>;

    closed spec fn view(&self) -> Seq<Point> {
        self.points@
    }
}

impl Interner {
    pub open spec fn wf(&self) -> bool {
        distinct_points(self@)
    }

    pub fn new() -> (r: Interner)
        ensures
            r.wf(),
            r@ == Seq::<Point>::empty(),
    {
        Interner { points: Vec::new() }
    }

    /// The number of interned points.
    pub fn len(&self) -> (r: usize)
        ensures
            r == self@.len(),
    {
        self.points.len()
    }

    /// The identifier of `point`, if it was interned.
    pub fn get_point_index(&self, point: &Point) -> (r: Option<PointIndex>)
        requires
            self.wf(),
        ensures
            match r {
                Some(i) => i < self@.len() && self@[i as int] == *point && i == point_id(self@, *point),
                None => !self@.contains(*point),
            },
    {
        let mut i: usize = 0;
        while i < self.points.len()
            invariant
                i <= self.points@.len(),
                self.wf(),
                forall|k: int| 0 <= k < i ==> self.points@[k] != *point,
            decreases self.points@.len() - i,
        {
            if self.points[i] == *point {
                proof {
                    let j = point_id(self@, *point);
                    assert(0 <= i < self@.len() && self@[i as int] == *point);
                    assert(self@[j] == *point);
                }
                return Some(i);
            }
            i = i + 1;
        }
        None
    }

    /// Interns `point`, returning its identifier; a point interned before
    /// keeps the identifier it was given then.
    pub fn intern(&mut self, point: Point) -> (r: PointIndex)
        requires
            old(self).wf(),
            old(self)@.len() < usize::MAX,
        ensures
            final(self).wf(),
            final(self)@ == interned(old(self)@, point),
            r < final(self)@.len(),
            final(self)@[r as int] == point,
            r == point_id(final(self)@, point),
    {
        match self.get_point_index(&point) {
            Some(i) => i,
            None => {
                let i = self.points.len();
                self.points.push(point);
                proof {
                    assert(self@[i as int] == point);
                }
                i
            },
        }
    }

    /// The point with identifier `index`; an identifier never issued is
    /// outside the contract.
    pub fn get_point(&self, index: PointIndex) -> (r: Point)
        requires
            index < self@.len(),
        ensures
            r == self@[index as int],
    {
        self.points[index]
    }
}

/// Interning is a bijection: the identifier of an interned point resolves to
/// that point, re-interning changes nothing and yields the same identifier,
/// and distinct points get distinct identifiers.
pub proof fn lemma_intern_resolve(s: Seq<Point>, p: Point, q: Point)
    requires
        distinct_points(s),
    ensures
        distinct_points(interned(s, p)),
        0 <= point_id(interned(s, p), p) < interned(s, p).len(),
        interned(s, p)[point_id(interned(s, p), p)] == p,
        interned(interned(s, p), p) == interned(s, p),
        interned(s, p).contains(q) && p != q ==> point_id(interned(s, p), p) != point_id(
            interned(s, p),
            q,
        ),
        s.contains(p) ==> point_id(interned(s, p), p) == point_id(s, p),
{
    let t = interned(s, p);
    if !s.contains(p) {
        assert(t[s.len() as int] == p);
    }
    assert(t.contains(p));
    let i = point_id(t, p);
    if t.contains(q) {
        let j = point_id(t, q);
    }
}

/// The input relations of the borrow analysis, each an unordered set of
/// tuples held in a vector.
pub struct AllInputFacts {
    /// `(region, loan, point)`: `region` may refer to data of `loan` from `point` on.
    pub borrow_region: Vec<(Region, Loan, PointIndex)>,
    /// Regions visible across the function boundary.
    pub universal_region: Vec<Region>,
    pub cfg_edge: Vec<(PointIndex, PointIndex)>,
    pub killed: Vec<(Loan, PointIndex)>,
    /// `(r1, r2, point)`: `r1` must outlive `r2` at `point`.
    pub outlives: Vec<(Region, Region, PointIndex)>,
    pub region_live_at: Vec<(Region, PointIndex)>,
    pub invalidates: Vec<(PointIndex, Loan)>,
}

/// The mathematical model of [`AllInputFacts`].
pub struct FactsView {
    pub borrow_region: Seq<(Region, Loan, PointIndex)>,
    pub universal_region: Seq<Region>,
    pub cfg_edge: Seq<(PointIndex, PointIndex)>,
    pub killed: Seq<(Loan, PointIndex)>,
    pub outlives: Seq<(Region, Region, PointIndex)>,
    pub region_live_at: Seq<(Region, PointIndex)>,
    pub invalidates: Seq<(PointIndex, Loan)>,
}

impl View for AllInputFacts {
    type V = FactsView;

    open spec fn view(&self) -> FactsView {
        FactsView {
            borrow_region: self.borrow_region@,
            universal_region: self.universal_region@,
            cfg_edge: self.cfg_edge@,
            killed: self.killed@,
            outlives: self.outlives@,
            region_live_at: self.region_live_at@,
            invalidates: self.invalidates@,
        }
    }
}

impl AllInputFacts {
    pub fn new() -> (r: AllInputFacts)
        ensures
            r@.borrow_region.len() == 0,
            r@.universal_region.len() == 0,
            r@.cfg_edge.len() == 0,
            r@.killed.len() == 0,
            r@.outlives.len() == 0,
            r@.region_live_at.len() == 0,
            r@.invalidates.len() == 0,
    {
        AllInputFacts {
            borrow_region: Vec::new(),
            universal_region: Vec::new(),
            cfg_edge: Vec::new(),
            killed: Vec::new(),
            outlives: Vec::new(),
            region_live_at: Vec::new(),
            invalidates: Vec::new(),
        }
    }
}

/// The solver's output that the report reads: for a point, the loans live
/// there. A point may be listed more than once; its loans are then the union.
pub struct AllOutputFacts {
    pub borrow_live_at: Vec<(PointIndex, Vec<Loan>)>,
}

impl AllOutputFacts {
    /// The output before the solver has run: no loan is live anywhere.
    pub fn new() -> (r: AllOutputFacts)
        ensures
            r.borrow_live_at@.len() == 0,
    {
        AllOutputFacts { borrow_live_at: Vec::new() }
    }
}

} // verus!
