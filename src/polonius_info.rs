//! Completion of the borrow facts, and the queries that the report asks of
//! the completed and solved facts.

use vstd::prelude::*;
use crate::facts::{
    AllInputFacts, AllOutputFacts, FactsView, Interner, Local, Loan, Point, PointIndex, Region,
};
use crate::mir::{
    get_call_destination, is_assignment, is_call, spec_call_destination, spec_is_assignment,
    spec_is_call, Mir,
};

verus! {

/// Neither region of the outlives tuple is universal.
pub open spec fn is_local_outlives(universal: Seq<Region>, t: (Region, Region, PointIndex)) -> bool {
    !universal.contains(t.0) && !universal.contains(t.1)
}

/// The outlives pairs between non-universal regions at `point`, in the order
/// of the relation.
pub open spec fn pairs_at(
    outlives: Seq<(Region, Region, PointIndex)>,
    universal: Seq<Region>,
    point: PointIndex,
) -> Seq<(Region, Region)>
    decreases outlives.len(),
{
    if outlives.len() == 0 {
        Seq::empty()
    } else {
        let prev = pairs_at(outlives.drop_last(), universal, point);
        let t = outlives.last();
        if t.2 == point && is_local_outlives(universal, t) {
            prev.push((t.0, t.1))
        } else {
            prev
        }
    }
}

/// Some loan-creation fact sits at `point`.
pub open spec fn has_loan_at(borrow_region: Seq<(Region, Loan, PointIndex)>, point: PointIndex) -> bool {
    exists|i: int| 0 <= i < borrow_region.len() && borrow_region[i].2 == point
}

/// The largest loan identifier of the relation, 0 when it is empty.
pub open spec fn max_loan(borrow_region: Seq<(Region, Loan, PointIndex)>) -> nat
    decreases borrow_region.len(),
{
    if borrow_region.len() == 0 {
        0
    } else {
        let m = max_loan(borrow_region.drop_last());
        if borrow_region.last().1 > m {
            borrow_region.last().1 as nat
        } else {
            m
        }
    }
}

/// The identifier that the first synthesized loan receives.
pub open spec fn first_fresh_loan(borrow_region: Seq<(Region, Loan, PointIndex)>) -> nat {
    max_loan(borrow_region) + 1
}

/// The outlives tuple at `i` is the first one between non-universal regions
/// at its point: completion handles each point there, once.
pub open spec fn opens_point(
    outlives: Seq<(Region, Region, PointIndex)>,
    universal: Seq<Region>,
    i: int,
) -> bool {
    &&& is_local_outlives(universal, outlives[i])
    &&& forall|j: int|
        0 <= j < i ==> !(outlives[j].2 == outlives[i].2 && is_local_outlives(universal, outlives[j]))
}

/// The region of `local` in the variable-region map, first entry first.
pub open spec fn region_of(variable_regions: Seq<(Local, Region)>, local: Local) -> Option<Region>
    decreases variable_regions.len(),
{
    if variable_regions.len() == 0 {
        None
    } else if variable_regions[0].0 == local {
        Some(variable_regions[0].1)
    } else {
        region_of(variable_regions.drop_first(), local)
    }
}

/// `a` comes after `b` in lexicographic order.
pub open spec fn pair_after(a: (Region, Region), b: (Region, Region)) -> bool {
    a.0 > b.0 || (a.0 == b.0 && a.1 > b.1)
}

/// The lexicographically greatest pair: the pair that completion picks at an
/// assignment. It depends on the set of pairs alone, not on their order.
pub open spec fn greatest_pair(pairs: Seq<(Region, Region)>) -> (Region, Region)
    decreases pairs.len(),
{
    if pairs.len() <= 1 {
        pairs[0]
    } else {
        let m = greatest_pair(pairs.drop_last());
        if pair_after(pairs.last(), m) {
            pairs.last()
        } else {
            m
        }
    }
}

/// The greatest pair is one of the pairs, and no pair comes after it; so
/// two sequences that hold the same pairs have the same greatest pair.
pub proof fn lemma_greatest_pair(pairs: Seq<(Region, Region)>, other: Seq<(Region, Region)>)
    requires
        pairs.len() > 0,
    ensures
        pairs.contains(greatest_pair(pairs)),
        forall|k: int| 0 <= k < pairs.len() ==> !pair_after(pairs[k], greatest_pair(pairs)),
        pairs.to_set() == other.to_set() ==> greatest_pair(pairs) == greatest_pair(other),
{
    lemma_greatest_pair_is_max(pairs);
    if pairs.to_set() == other.to_set() {
        let g = greatest_pair(pairs);
        assert(pairs.to_set().contains(g));
        assert(other.to_set().contains(g));
        assert(other.len() > 0);
        lemma_greatest_pair_is_max(other);
        let h = greatest_pair(other);
        assert(other.to_set().contains(h));
        assert(pairs.to_set().contains(h));
        let i = choose|i: int| 0 <= i < pairs.len() && pairs[i] == h;
        let j = choose|j: int| 0 <= j < other.len() && other[j] == g;
        assert(!pair_after(pairs[i], g));
        assert(!pair_after(other[j], h));
    }
}

proof fn lemma_greatest_pair_is_max(pairs: Seq<(Region, Region)>)
    requires
        pairs.len() > 0,
    ensures
        pairs.contains(greatest_pair(pairs)),
        forall|k: int| 0 <= k < pairs.len() ==> !pair_after(pairs[k], greatest_pair(pairs)),
    decreases pairs.len(),
{
    if pairs.len() == 1 {
        assert(pairs[0] == greatest_pair(pairs));
    } else {
        let d = pairs.drop_last();
        lemma_greatest_pair_is_max(d);
        let m = greatest_pair(d);
        let i = choose|i: int| 0 <= i < d.len() && d[i] == m;
        assert(pairs[i] == m);
        assert forall|k: int| 0 <= k < pairs.len() implies !pair_after(pairs[k], greatest_pair(pairs)) by {
            if k < pairs.len() - 1 {
                assert(pairs[k] == d[k]);
            }
        }
        assert(pairs[pairs.len() - 1] == pairs.last());
    }
}

fn find_greatest_pair(pairs: &Vec<(Region, Region)>) -> (r: (Region, Region))
    requires
        pairs@.len() > 0,
    ensures
        r == greatest_pair(pairs@),
{
    let mut best = pairs[0];
    let mut i: usize = 1;
    while i < pairs.len()
        invariant
            1 <= i <= pairs@.len(),
            best == greatest_pair(pairs@.subrange(0, i as int)),
        decreases pairs@.len() - i,
    {
        assert(pairs@.subrange(0, i + 1).drop_last() =~= pairs@.subrange(0, i as int));
        let p = pairs[i];
        if p.0 > best.0 || (p.0 == best.0 && p.1 > best.1) {
            best = p;
        }
        i = i + 1;
    }
    assert(pairs@.subrange(0, i as int) =~= pairs@);
    best
}

/// What completion adds: loan-creation facts, call destinations of the new
/// loans, and the loans made for moves of references and of call arguments.
pub struct Completion {
    pub facts: Seq<(Region, Loan, PointIndex)>,
    pub magic_wands: Seq<(Loan, Local)>,
    pub reference_moves: Seq<Loan>,
    pub argument_moves: Seq<Loan>,
}

/// The region of the destination of the call at `point`, with its local.
pub open spec fn destination_region(
    points: Seq<Point>,
    mir: &Mir,
    variable_regions: Seq<(Local, Region)>,
    point: PointIndex,
) -> Option<(Local, Region)> {
    match spec_call_destination(mir, points[point as int].location) {
        Some(local) => match region_of(variable_regions, local) {
            Some(region) => Some((local, region)),
            None => None,
        },
        None => None,
    }
}

/// One argument loan per pair, for the pair's first region, numbered from `next`.
pub open spec fn argument_facts(pairs: Seq<(Region, Region)>, point: PointIndex, next: nat) -> Seq<
    (Region, Loan, PointIndex),
> {
    Seq::new(pairs.len(), |k: int| (pairs[k].0, (next + k) as Loan, point))
}

/// What completion adds at a point that it handles, numbering from `next`.
pub open spec fn point_completion(
    facts: FactsView,
    points: Seq<Point>,
    mir: &Mir,
    variable_regions: Seq<(Local, Region)>,
    point: PointIndex,
    next: nat,
) -> Completion {
    let location = points[point as int].location;
    let pairs = pairs_at(facts.outlives, facts.universal_region, point);
    if spec_is_call(mir, location) {
        match destination_region(points, mir, variable_regions, point) {
            Some((local, region)) => Completion {
                facts: seq![(region, next as Loan, point)] + argument_facts(pairs, point, next + 1),
                magic_wands: seq![(next as Loan, local)],
                reference_moves: Seq::empty(),
                argument_moves: Seq::new(pairs.len(), |k: int| (next + 1 + k) as Loan),
            },
            None => Completion {
                facts: argument_facts(pairs, point, next),
                magic_wands: Seq::empty(),
                reference_moves: Seq::empty(),
                argument_moves: Seq::new(pairs.len(), |k: int| (next + k) as Loan),
            },
        }
    } else if spec_is_assignment(mir, location) {
        Completion {
            facts: seq![(greatest_pair(pairs).1, next as Loan, point)],
            magic_wands: Seq::empty(),
            reference_moves: seq![next as Loan],
            argument_moves: Seq::empty(),
        }
    } else {
        Completion {
            facts: Seq::empty(),
            magic_wands: Seq::empty(),
            reference_moves: Seq::empty(),
            argument_moves: Seq::empty(),
        }
    }
}

/// Completion is handed the point of the outlives tuple at `i`: the tuple
/// opens its point and no loan-creation fact sits there.
pub open spec fn handles(facts: FactsView, i: int) -> bool {
    &&& opens_point(facts.outlives, facts.universal_region, i)
    &&& !has_loan_at(facts.borrow_region, facts.outlives[i].2)
}

/// What completion adds for the first `n` outlives tuples: points are handled
/// in the order in which the relation first names them (between non-universal
/// regions), and loans are numbered consecutively from `first_fresh_loan`.
pub open spec fn completion_upto(
    facts: FactsView,
    points: Seq<Point>,
    mir: &Mir,
    variable_regions: Seq<(Local, Region)>,
    n: int,
) -> Completion
    decreases n,
{
    if n <= 0 {
        Completion {
            facts: Seq::empty(),
            magic_wands: Seq::empty(),
            reference_moves: Seq::empty(),
            argument_moves: Seq::empty(),
        }
    } else {
        let prev = completion_upto(facts, points, mir, variable_regions, n - 1);
        if handles(facts, n - 1) {
            let c = point_completion(
                facts,
                points,
                mir,
                variable_regions,
                facts.outlives[n - 1].2,
                first_fresh_loan(facts.borrow_region) + prev.facts.len(),
            );
            Completion {
                facts: prev.facts + c.facts,
                magic_wands: prev.magic_wands + c.magic_wands,
                reference_moves: prev.reference_moves + c.reference_moves,
                argument_moves: prev.argument_moves + c.argument_moves,
            }
        } else {
            prev
        }
    }
}

/// What completion adds to `facts`.
pub open spec fn completion(
    facts: FactsView,
    points: Seq<Point>,
    mir: &Mir,
    variable_regions: Seq<(Local, Region)>,
) -> Completion {
    completion_upto(facts, points, mir, variable_regions, facts.outlives.len() as int)
}

proof fn lemma_pairs_at_nonempty(
    outlives: Seq<(Region, Region, PointIndex)>,
    universal: Seq<Region>,
    i: int,
)
    requires
        0 <= i < outlives.len(),
        is_local_outlives(universal, outlives[i]),
    ensures
        pairs_at(outlives, universal, outlives[i].2).len() > 0,
    decreases outlives.len(),
{
    if i < outlives.len() - 1 {
        assert(outlives.drop_last()[i] == outlives[i]);
        lemma_pairs_at_nonempty(outlives.drop_last(), universal, i);
    }
}

/// Some outlives tuple before `n` opens `point`.
pub open spec fn opened_before(
    outlives: Seq<(Region, Region, PointIndex)>,
    universal: Seq<Region>,
    n: int,
    point: PointIndex,
) -> bool {
    exists|i: int| 0 <= i < n && opens_point(outlives, universal, i) && outlives[i].2 == point
}

/// How many of the first `m` outlives tuples are between non-universal
/// regions at a point that a tuple before `n` opens.
pub open spec fn opened_count(
    outlives: Seq<(Region, Region, PointIndex)>,
    universal: Seq<Region>,
    m: int,
    n: int,
) -> nat
    decreases m,
{
    if m <= 0 {
        0
    } else {
        opened_count(outlives, universal, m - 1, n) + if is_local_outlives(universal, outlives[m - 1])
            && opened_before(outlives, universal, n, outlives[m - 1].2) {
            1nat
        } else {
            0nat
        }
    }
}

proof fn lemma_opened_count_le(
    outlives: Seq<(Region, Region, PointIndex)>,
    universal: Seq<Region>,
    m: int,
    n: int,
)
    requires
        0 <= m,
    ensures
        opened_count(outlives, universal, m, n) <= m,
    decreases m,
{
    if m > 0 {
        lemma_opened_count_le(outlives, universal, m - 1, n);
    }
}

/// Opening one more point counts at least its pairs more.
proof fn lemma_opened_count_step(
    outlives: Seq<(Region, Region, PointIndex)>,
    universal: Seq<Region>,
    m: int,
    n: int,
)
    requires
        0 <= m <= outlives.len(),
        1 <= n <= outlives.len(),
    ensures
        opened_count(outlives, universal, m, n) >= opened_count(outlives, universal, m, n - 1) + if opens_point(
            outlives,
            universal,
            n - 1,
        ) {
            pairs_at(outlives.subrange(0, m), universal, outlives[n - 1].2).len()
        } else {
            0
        },
    decreases m,
{
    if m > 0 {
        lemma_opened_count_step(outlives, universal, m - 1, n);
        let t = outlives[m - 1];
        let p = outlives[n - 1].2;
        assert(outlives.subrange(0, m).drop_last() =~= outlives.subrange(0, m - 1));
        assert(outlives.subrange(0, m).last() == t);
        if opened_before(outlives, universal, n - 1, t.2) {
            let i = choose|i: int|
                0 <= i < n - 1 && opens_point(outlives, universal, i) && outlives[i].2 == t.2;
            assert(opened_before(outlives, universal, n, t.2));
        }
        if opens_point(outlives, universal, n - 1) && is_local_outlives(universal, t) && t.2 == p {
            assert(opened_before(outlives, universal, n, t.2));
            if opened_before(outlives, universal, n - 1, t.2) {
                let i = choose|i: int|
                    0 <= i < n - 1 && opens_point(outlives, universal, i) && outlives[i].2 == t.2;
                assert(is_local_outlives(universal, outlives[i]));
                assert(false);
            }
        }
    }
}

/// Completion adds at most one fact per handled point and one per pair.
proof fn lemma_completion_count(
    facts: FactsView,
    points: Seq<Point>,
    mir: &Mir,
    variable_regions: Seq<(Local, Region)>,
    n: int,
)
    requires
        0 <= n <= facts.outlives.len(),
    ensures
        completion_upto(facts, points, mir, variable_regions, n).facts.len() <= n + opened_count(
            facts.outlives,
            facts.universal_region,
            facts.outlives.len() as int,
            n,
        ),
    decreases n,
{
    let o = facts.outlives;
    let u = facts.universal_region;
    let l = o.len() as int;
    if n > 0 {
        lemma_completion_count(facts, points, mir, variable_regions, n - 1);
        lemma_opened_count_step(o, u, l, n);
        assert(o.subrange(0, l) =~= o);
        let prev = completion_upto(facts, points, mir, variable_regions, n - 1);
        if handles(facts, n - 1) {
            let p = o[n - 1].2;
            let c = point_completion(
                facts,
                points,
                mir,
                variable_regions,
                p,
                first_fresh_loan(facts.borrow_region) + prev.facts.len(),
            );
            assert(c.facts.len() <= 1 + pairs_at(o, u, p).len());
        }
    }
}

/// Completion adds at most two facts per outlives tuple.
proof fn lemma_completion_bound(
    facts: FactsView,
    points: Seq<Point>,
    mir: &Mir,
    variable_regions: Seq<(Local, Region)>,
    n: int,
)
    requires
        0 <= n <= facts.outlives.len(),
    ensures
        completion_upto(facts, points, mir, variable_regions, n).facts.len() <= 2
            * facts.outlives.len(),
{
    let l = facts.outlives.len() as int;
    lemma_completion_prefix(facts, points, mir, variable_regions, n, l);
    lemma_completion_count(facts, points, mir, variable_regions, l);
    lemma_opened_count_le(facts.outlives, facts.universal_region, l, l);
}

fn contains_region(regions: &Vec<Region>, region: Region) -> (r: bool)
    ensures
        r == regions@.contains(region),
{
    let mut i: usize = 0;
    while i < regions.len()
        invariant
            i <= regions@.len(),
            forall|k: int| 0 <= k < i ==> regions@[k] != region,
        decreases regions@.len() - i,
    {
        if regions[i] == region {
            assert(regions@[i as int] == region);
            return true;
        }
        i = i + 1;
    }
    false
}

fn local_outlives(universal: &Vec<Region>, t: (Region, Region, PointIndex)) -> (r: bool)
    ensures
        r == is_local_outlives(universal@, t),
{
    !contains_region(universal, t.0) && !contains_region(universal, t.1)
}

fn check_opens_point(
    outlives: &Vec<(Region, Region, PointIndex)>,
    universal: &Vec<Region>,
    i: usize,
) -> (r: bool)
    requires
        i < outlives@.len(),
    ensures
        r == opens_point(outlives@, universal@, i as int),
{
    if !local_outlives(universal, outlives[i]) {
        return false;
    }
    let point = outlives[i].2;
    let mut j: usize = 0;
    while j < i
        invariant
            i < outlives@.len(),
            point == outlives@[i as int].2,
            j <= i,
            forall|k: int|
                0 <= k < j ==> !(outlives@[k].2 == point && is_local_outlives(
                    universal@,
                    outlives@[k],
                )),
        decreases i - j,
    {
        if outlives[j].2 == point && local_outlives(universal, outlives[j]) {
            return false;
        }
        j = j + 1;
    }
    true
}

fn has_loan(borrow_region: &Vec<(Region, Loan, PointIndex)>, point: PointIndex) -> (r: bool)
    ensures
        r == has_loan_at(borrow_region@, point),
{
    let mut i: usize = 0;
    while i < borrow_region.len()
        invariant
            i <= borrow_region@.len(),
            forall|k: int| 0 <= k < i ==> borrow_region@[k].2 != point,
        decreases borrow_region@.len() - i,
    {
        if borrow_region[i].2 == point {
            assert(borrow_region@[i as int].2 == point);
            return true;
        }
        i = i + 1;
    }
    false
}

fn collect_pairs(
    outlives: &Vec<(Region, Region, PointIndex)>,
    universal: &Vec<Region>,
    point: PointIndex,
) -> (r: Vec<(Region, Region)>)
    ensures
        r@ == pairs_at(outlives@, universal@, point),
{
    let mut pairs: Vec<(Region, Region)> = Vec::new();
    let mut i: usize = 0;
    while i < outlives.len()
        invariant
            i <= outlives@.len(),
            pairs@ == pairs_at(outlives@.subrange(0, i as int), universal@, point),
        decreases outlives@.len() - i,
    {
        let t = outlives[i];
        assert(outlives@.subrange(0, i + 1).drop_last() =~= outlives@.subrange(0, i as int));
        if t.2 == point && local_outlives(universal, t) {
            pairs.push((t.0, t.1));
        }
        i = i + 1;
    }
    assert(outlives@.subrange(0, i as int) =~= outlives@);
    pairs
}

/// The region of `local` in the variable-region map.
pub fn lookup_region(variable_regions: &Vec<(Local, Region)>, local: Local) -> (r: Option<Region>)
    ensures
        r == region_of(variable_regions@, local),
{
    let ghost s = variable_regions@;
    let mut i: usize = 0;
    assert(s.subrange(0, s.len() as int) =~= s);
    while i < variable_regions.len()
        invariant
            s == variable_regions@,
            i <= s.len(),
            region_of(s, local) == region_of(s.subrange(i as int, s.len() as int), local),
        decreases s.len() - i,
    {
        let ghost rest = s.subrange(i as int, s.len() as int);
        assert(rest.drop_first() =~= s.subrange(i + 1, s.len() as int));
        assert(rest[0] == s[i as int]);
        if variable_regions[i].0 == local {
            return Some(variable_regions[i].1);
        }
        i = i + 1;
    }
    None
}

fn largest_loan(borrow_region: &Vec<(Region, Loan, PointIndex)>) -> (r: Loan)
    ensures
        r == max_loan(borrow_region@),
{
    let ghost s = borrow_region@;
    let mut last: Loan = 0;
    let mut i: usize = 0;
    while i < borrow_region.len()
        invariant
            s == borrow_region@,
            i <= s.len(),
            last == max_loan(s.subrange(0, i as int)),
        decreases s.len() - i,
    {
        assert(s.subrange(0, i + 1).drop_last() =~= s.subrange(0, i as int));
        if borrow_region[i].1 > last {
            last = borrow_region[i].1;
        }
        i = i + 1;
    }
    assert(s.subrange(0, i as int) =~= s);
    last
}

/// The outlives points are interned, and fresh loan identifiers fit.
pub open spec fn completion_fits(facts: FactsView, points: Seq<Point>) -> bool {
    &&& forall|i: int| 0 <= i < facts.outlives.len() ==> facts.outlives[i].2 < points.len()
    &&& first_fresh_loan(facts.borrow_region) + 2 * facts.outlives.len() <= usize::MAX
}

/// Checks the precondition of completion: every outlives point is interned,
/// and fresh loan identifiers fit.
pub fn check_completion_fits(all_facts: &AllInputFacts, interner: &Interner) -> (r: bool)
    ensures
        r == completion_fits(all_facts@, interner@),
{
    let n = all_facts.outlives.len();
    let mut i: usize = 0;
    while i < n
        invariant
            n == all_facts.outlives@.len(),
            i <= n,
            forall|k: int| 0 <= k < i ==> all_facts.outlives@[k].2 < interner@.len(),
        decreases n - i,
    {
        if all_facts.outlives[i].2 >= interner.len() {
            return false;
        }
        i = i + 1;
    }
    let last = largest_loan(&all_facts.borrow_region);
    if last == usize::MAX || n > usize::MAX / 2 {
        return false;
    }
    (last + 1).checked_add(2 * n).is_some()
}

/// Adds the loan-creation facts that the upstream analysis leaves out.
///
/// Each point that some outlives pair between non-universal regions names,
/// and at which no loan-creation fact sits, is handled once, in the order in
/// which the relation first names it:
/// - at a call, a loan for the region of the destination local (when it has
///   one), recorded in `call_magic_wands`, then one loan per pair at the point
///   for the pair's first region;
/// - at an assignment, one loan for the second region of the
///   lexicographically greatest pair at the point (a rule over the set of
///   pairs, whatever their order in the relation);
/// - elsewhere, nothing.
/// New loans are numbered consecutively after the largest existing one.
/// Returns the loans made for moves of references and for call arguments.
pub fn add_fake_facts(
    all_facts: &mut AllInputFacts,
    interner: &Interner,
    mir: &Mir,
    variable_regions: &Vec<(Local, Region)>,
    call_magic_wands: &mut Vec<(Loan, Local)>,
) -> (r: (Vec<Loan>, Vec<Loan>))
    requires
        completion_fits(old(all_facts)@, interner@),
    ensures
        ({
            let c = completion(old(all_facts)@, interner@, mir, variable_regions@);
            &&& final(all_facts)@.borrow_region == old(all_facts)@.borrow_region + c.facts
            &&& final(call_magic_wands)@ == old(call_magic_wands)@ + c.magic_wands
            &&& r.0@ == c.reference_moves
            &&& r.1@ == c.argument_moves
        }),
        final(all_facts)@.universal_region == old(all_facts)@.universal_region,
        final(all_facts)@.cfg_edge == old(all_facts)@.cfg_edge,
        final(all_facts)@.killed == old(all_facts)@.killed,
        final(all_facts)@.outlives == old(all_facts)@.outlives,
        final(all_facts)@.region_live_at == old(all_facts)@.region_live_at,
        final(all_facts)@.invalidates == old(all_facts)@.invalidates,
        forall|k: int|
            old(all_facts)@.borrow_region.len() <= k < final(all_facts)@.borrow_region.len()
                ==> !has_loan_at(old(all_facts)@.borrow_region, final(all_facts)@.borrow_region[k].2),
        forall|i: int, j: int|
            0 <= i < final(all_facts)@.borrow_region.len() && 0 <= j < final(all_facts)@.borrow_region.len()
                && i != j && (i >= old(all_facts)@.borrow_region.len() || j
                >= old(all_facts)@.borrow_region.len()) ==> final(all_facts)@.borrow_region[i].1
                != final(all_facts)@.borrow_region[j].1,
        ({
            let again = completion(final(all_facts)@, interner@, mir, variable_regions@);
            &&& again.facts.len() == 0
            &&& again.magic_wands.len() == 0
            &&& again.reference_moves.len() == 0
            &&& again.argument_moves.len() == 0
        }),
{
    let ghost f = all_facts@;
    let ghost pts = interner@;
    let ghost vr = variable_regions@;
    let ghost w0 = call_magic_wands@;
    let ghost l = f.outlives.len() as int;
    let mut next = largest_loan(&all_facts.borrow_region) + 1;
    let mut added: Vec<(Region, Loan, PointIndex)> = Vec::new();
    let mut reference_moves: Vec<Loan> = Vec::new();
    let mut argument_moves: Vec<Loan> = Vec::new();
    let n = all_facts.outlives.len();
    let mut i: usize = 0;
    while i < n
        invariant
            n == l,
            l == f.outlives.len(),
            i <= n,
            f == all_facts@,
            pts == interner@,
            vr == variable_regions@,
            completion_fits(f, pts),
            added@ == completion_upto(f, pts, mir, vr, i as int).facts,
            call_magic_wands@ == w0 + completion_upto(f, pts, mir, vr, i as int).magic_wands,
            reference_moves@ == completion_upto(f, pts, mir, vr, i as int).reference_moves,
            argument_moves@ == completion_upto(f, pts, mir, vr, i as int).argument_moves,
            next == first_fresh_loan(f.borrow_region) + completion_upto(
                f,
                pts,
                mir,
                vr,
                i as int,
            ).facts.len(),
        decreases n - i,
    {
        let ghost prev = completion_upto(f, pts, mir, vr, i as int);
        proof {
            lemma_completion_bound(f, pts, mir, vr, i + 1);
        }
        let point = all_facts.outlives[i].2;
        if check_opens_point(&all_facts.outlives, &all_facts.universal_region, i) && !has_loan(
            &all_facts.borrow_region,
            point,
        ) {
            let pairs = collect_pairs(&all_facts.outlives, &all_facts.universal_region, point);
            proof {
                lemma_pairs_at_nonempty(f.outlives, f.universal_region, i as int);
            }
            let location = interner.get_point(point).location;
            let ghost cp = point_completion(f, pts, mir, vr, point, next as nat);
            assert(next + cp.facts.len() <= usize::MAX);
            if is_call(mir, location) {
                match get_call_destination(mir, location) {
                    Some(local) => match lookup_region(variable_regions, local) {
                        Some(region) => {
                            added.push((region, next, point));
                            call_magic_wands.push((next, local));
                            next = next + 1;
                        },
                        None => {},
                    },
                    None => {},
                }
                let ghost added1 = added@;
                let ghost args0 = argument_moves@;
                let start = next;
                let mut k: usize = 0;
                while k < pairs.len()
                    invariant
                        k <= pairs@.len(),
                        start + pairs@.len() <= usize::MAX,
                        next == start + k,
                        added@ == added1 + Seq::new(
                            k as nat,
                            |j: int| (pairs@[j].0, (start + j) as Loan, point),
                        ),
                        argument_moves@ == args0 + Seq::new(k as nat, |j: int| (start + j) as Loan),
                    decreases pairs@.len() - k,
                {
                    added.push((pairs[k].0, next, point));
                    argument_moves.push(next);
                    proof {
                        assert(Seq::new(
                            (k + 1) as nat,
                            |j: int| (pairs@[j].0, (start + j) as Loan, point),
                        ) =~= Seq::new(
                            k as nat,
                            |j: int| (pairs@[j].0, (start + j) as Loan, point),
                        ).push((pairs@[k as int].0, next, point)));
                        assert(Seq::new((k + 1) as nat, |j: int| (start + j) as Loan) =~= Seq::new(
                            k as nat,
                            |j: int| (start + j) as Loan,
                        ).push(next));
                    }
                    next = next + 1;
                    k = k + 1;
                }
            } else if is_assignment(mir, location) {
                let chosen = find_greatest_pair(&pairs);
                added.push((chosen.1, next, point));
                reference_moves.push(next);
                next = next + 1;
            }
            proof {
                assert(added@ =~= prev.facts + cp.facts);
                assert(call_magic_wands@ =~= w0 + (prev.magic_wands + cp.magic_wands));
                assert(argument_moves@ =~= prev.argument_moves + cp.argument_moves);
                assert(reference_moves@ =~= prev.reference_moves + cp.reference_moves);
            }
        }
        i = i + 1;
    }
    all_facts.borrow_region.append(&mut added);
    proof {
        lemma_completion_idempotent(f, pts, mir, vr);
        assert(all_facts@ == completed(f, pts, mir, vr));
        lemma_fresh_loans_distinct(f, pts, mir, vr);
        let c = completion(f, pts, mir, vr);
        lemma_completion_shape(f, pts, mir, vr, l);
        assert forall|k: int|
            f.borrow_region.len() <= k < all_facts@.borrow_region.len() implies !has_loan_at(
            f.borrow_region,
            all_facts@.borrow_region[k].2,
        ) by {
            let kk = k - f.borrow_region.len();
            assert(all_facts@.borrow_region[k] == c.facts[kk]);
            assert(handled_before(f, l, c.facts[kk].2));
        }
    }
    (reference_moves, argument_moves)
}

/// No local is listed twice in the variable-region map.
pub open spec fn distinct_locals(variable_regions: Seq<(Local, Region)>) -> bool {
    forall|i: int, j: int|
        0 <= i < variable_regions.len() && 0 <= j < variable_regions.len()
            && variable_regions[i].0 == variable_regions[j].0 ==> i == j
}

/// No region belongs to two entries of the variable-region map.
pub open spec fn distinct_regions(variable_regions: Seq<(Local, Region)>) -> bool {
    forall|i: int, j: int|
        0 <= i < variable_regions.len() && 0 <= j < variable_regions.len()
            && variable_regions[i].1 == variable_regions[j].1 ==> i == j
}

/// The variable that owns `region`, first entry first.
pub open spec fn variable_of(variable_regions: Seq<(Local, Region)>, region: Region) -> Option<Local>
    decreases variable_regions.len(),
{
    if variable_regions.len() == 0 {
        None
    } else if variable_regions[0].1 == region {
        Some(variable_regions[0].0)
    } else {
        variable_of(variable_regions.drop_first(), region)
    }
}

/// The loans live at `point` in the solver's output, entry by entry.
pub open spec fn live_loans(borrow_live_at: Seq<(PointIndex, Vec<Loan>)>, point: PointIndex) -> Seq<Loan>
    decreases borrow_live_at.len(),
{
    if borrow_live_at.len() == 0 {
        Seq::empty()
    } else {
        let prev = live_loans(borrow_live_at.drop_last(), point);
        if borrow_live_at.last().0 == point {
            prev + borrow_live_at.last().1@
        } else {
            prev
        }
    }
}

/// The `(region, loan)` pairs of the loan-creation facts at `point`.
pub open spec fn borrow_regions(borrow_region: Seq<(Region, Loan, PointIndex)>, point: PointIndex) -> Seq<
    (Region, Loan),
>
    decreases borrow_region.len(),
{
    if borrow_region.len() == 0 {
        Seq::empty()
    } else {
        let prev = borrow_regions(borrow_region.drop_last(), point);
        let t = borrow_region.last();
        if t.2 == point {
            prev.push((t.0, t.1))
        } else {
            prev
        }
    }
}

/// The regions live at `point`, each with the variable that owns it.
pub open spec fn live_regions(
    region_live_at: Seq<(Region, PointIndex)>,
    variable_regions: Seq<(Local, Region)>,
    point: PointIndex,
) -> Seq<(Region, Option<Local>)>
    decreases region_live_at.len(),
{
    if region_live_at.len() == 0 {
        Seq::empty()
    } else {
        let prev = live_regions(region_live_at.drop_last(), variable_regions, point);
        let t = region_live_at.last();
        if t.1 == point {
            prev.push((t.0, variable_of(variable_regions, t.0)))
        } else {
            prev
        }
    }
}

/// The variable-region map is inconsistent.
#[derive(Clone, Copy, Debug, PartialEq, Eq, Structural)]
pub enum VariableRegionError {
    /// A local is given two regions.
    DuplicateLocal,
    /// Two locals are given one region.
    SharedRegion,
}

/// The completed and solved facts of one function, with the maps that relate
/// them to its variables.
pub struct PoloniusInfo {
    pub borrowck_in_facts: AllInputFacts,
    pub borrowck_out_facts: AllOutputFacts,
    pub interner: Interner,
    pub variable_regions: Vec<(Local, Region)>,
    /// Loans that stand for a borrow that a call returned into a local.
    pub call_magic_wands: Vec<(Loan, Local)>,
}

/// The local (`false`) or the region (`true`) of an entry.
pub open spec fn component(entry: (Local, Region), region: bool) -> usize {
    if region {
        entry.1
    } else {
        entry.0
    }
}

/// No two entries share their local (`region` false) or their region (`region` true).
fn check_distinct(variable_regions: &Vec<(Local, Region)>, region: bool) -> (r: bool)
    ensures
        r == if region {
            distinct_regions(variable_regions@)
        } else {
            distinct_locals(variable_regions@)
        },
{
    let ghost s = variable_regions@;
    let n = variable_regions.len();
    let mut i: usize = 0;
    while i < n
        invariant
            s == variable_regions@,
            n == s.len(),
            i <= n,
            forall|a: int, b: int|
                0 <= a < i && 0 <= b < n && a != b ==> component(s[a], region) != component(s[b], region),
        decreases n - i,
    {
        let mut j: usize = 0;
        while j < n
            invariant
                s == variable_regions@,
                n == s.len(),
                i < n,
                j <= n,
                forall|b: int|
                    0 <= b < j && i != b ==> component(s[i as int], region) != component(s[b], region),
            decreases n - j,
        {
            let same = if region {
                variable_regions[i].1 == variable_regions[j].1
            } else {
                variable_regions[i].0 == variable_regions[j].0
            };
            if j != i && same {
                return false;
            }
            j = j + 1;
        }
        i = i + 1;
    }
    true
}

impl PoloniusInfo {
    /// The interner is well formed and the variable-region map is
    /// injective both ways.
    pub open spec fn wf(&self) -> bool {
        &&& self.interner.wf()
        &&& distinct_locals(self.variable_regions@)
        &&& distinct_regions(self.variable_regions@)
    }

    /// Checks the variable-region map and completes the facts; the output
    /// stays empty until the solver's result is handed over.
    pub fn new(
        all_facts: AllInputFacts,
        interner: Interner,
        mir: &Mir,
        variable_regions: Vec<(Local, Region)>,
    ) -> (r: Result<PoloniusInfo, VariableRegionError>)
        requires
            interner.wf(),
            completion_fits(all_facts@, interner@),
        ensures
            !distinct_locals(variable_regions@) <==> r == Err::<PoloniusInfo, _>(
                VariableRegionError::DuplicateLocal,
            ),
            distinct_locals(variable_regions@) && !distinct_regions(variable_regions@) <==> r
                == Err::<PoloniusInfo, _>(VariableRegionError::SharedRegion),
            r is Ok <==> distinct_locals(variable_regions@) && distinct_regions(variable_regions@),
            r matches Ok(info) ==> {
                let c = completion(all_facts@, interner@, mir, variable_regions@);
                &&& info.wf()
                &&& info.borrowck_in_facts@.borrow_region == all_facts@.borrow_region + c.facts
                &&& info.borrowck_in_facts@.universal_region == all_facts@.universal_region
                &&& info.borrowck_in_facts@.cfg_edge == all_facts@.cfg_edge
                &&& info.borrowck_in_facts@.killed == all_facts@.killed
                &&& info.borrowck_in_facts@.outlives == all_facts@.outlives
                &&& info.borrowck_in_facts@.region_live_at == all_facts@.region_live_at
                &&& info.borrowck_in_facts@.invalidates == all_facts@.invalidates
                &&& info.call_magic_wands@ == c.magic_wands
                &&& info.borrowck_out_facts.borrow_live_at@.len() == 0
                &&& info.interner@ == interner@
                &&& info.variable_regions@ == variable_regions@
            },
    {
        if !check_distinct(&variable_regions, false) {
            return Err(VariableRegionError::DuplicateLocal);
        }
        if !check_distinct(&variable_regions, true) {
            return Err(VariableRegionError::SharedRegion);
        }
        let ghost f0 = all_facts@;
        let mut all_facts = all_facts;
        let mut call_magic_wands: Vec<(Loan, Local)> = Vec::new();
        let _moves = add_fake_facts(
            &mut all_facts,
            &interner,
            mir,
            &variable_regions,
            &mut call_magic_wands,
        );
        proof {
            assert(call_magic_wands@ =~= completion(
                f0,
                interner@,
                mir,
                variable_regions@,
            ).magic_wands);
        }
        Ok(
            PoloniusInfo {
                borrowck_in_facts: all_facts,
                borrowck_out_facts: AllOutputFacts::new(),
                interner,
                variable_regions,
                call_magic_wands,
            },
        )
    }

    /// Takes the solver's output for the completed facts.
    pub fn with_output(self, output: AllOutputFacts) -> (r: PoloniusInfo)
        ensures
            r.borrowck_in_facts@ == self.borrowck_in_facts@,
            r.borrowck_out_facts.borrow_live_at@ == output.borrow_live_at@,
            r.interner@ == self.interner@,
            r.variable_regions@ == self.variable_regions@,
            r.call_magic_wands@ == self.call_magic_wands@,
            self.wf() ==> r.wf(),
    {
        PoloniusInfo { borrowck_out_facts: output, ..self }
    }

    /// Find a variable that has the given region in its type.
    pub fn find_variable(&self, region: Region) -> (r: Option<Local>)
        requires
            self.wf(),
        ensures
            r == variable_of(self.variable_regions@, region),
            r matches Some(local) ==> self.variable_regions@.contains((local, region)),
            r is None ==> forall|i: int|
                0 <= i < self.variable_regions@.len() ==> self.variable_regions@[i].1 != region,
    {
        let ghost s = self.variable_regions@;
        let mut i: usize = 0;
        assert(s.subrange(0, s.len() as int) =~= s);
        while i < self.variable_regions.len()
            invariant
                s == self.variable_regions@,
                i <= s.len(),
                variable_of(s, region) == variable_of(s.subrange(i as int, s.len() as int), region),
                forall|k: int| 0 <= k < i ==> s[k].1 != region,
            decreases s.len() - i,
        {
            let ghost rest = s.subrange(i as int, s.len() as int);
            assert(rest.drop_first() =~= s.subrange(i + 1, s.len() as int));
            assert(rest[0] == s[i as int]);
            if self.variable_regions[i].1 == region {
                assert(s[i as int] == (s[i as int].0, region));
                return Some(self.variable_regions[i].0);
            }
            i = i + 1;
        }
        None
    }

    /// The loans live at `point`; empty where the output names no such point.
    pub fn live_loans_at(&self, point: PointIndex) -> (r: Vec<Loan>)
        ensures
            r@ == live_loans(self.borrowck_out_facts.borrow_live_at@, point),
    {
        let ghost s = self.borrowck_out_facts.borrow_live_at@;
        let mut loans: Vec<Loan> = Vec::new();
        let mut i: usize = 0;
        while i < self.borrowck_out_facts.borrow_live_at.len()
            invariant
                s == self.borrowck_out_facts.borrow_live_at@,
                i <= s.len(),
                loans@ == live_loans(s.subrange(0, i as int), point),
            decreases s.len() - i,
        {
            assert(s.subrange(0, i + 1).drop_last() =~= s.subrange(0, i as int));
            let entry = &self.borrowck_out_facts.borrow_live_at[i];
            if entry.0 == point {
                let ghost base = loans@;
                let mut k: usize = 0;
                while k < entry.1.len()
                    invariant
                        k <= entry.1@.len(),
                        loans@ == base + entry.1@.subrange(0, k as int),
                    decreases entry.1@.len() - k,
                {
                    loans.push(entry.1[k]);
                    k = k + 1;
                    assert(entry.1@.subrange(0, k as int) =~= entry.1@.subrange(0, k - 1).push(
                        entry.1@[k - 1],
                    ));
                }
                assert(entry.1@.subrange(0, k as int) =~= entry.1@);
            }
            i = i + 1;
        }
        assert(s.subrange(0, i as int) =~= s);
        loans
    }

    /// The `(region, loan)` pairs of the loan-creation facts at `point`.
    pub fn borrow_regions_at(&self, point: PointIndex) -> (r: Vec<(Region, Loan)>)
        ensures
            r@ == borrow_regions(self.borrowck_in_facts@.borrow_region, point),
    {
        let ghost s = self.borrowck_in_facts.borrow_region@;
        let mut pairs: Vec<(Region, Loan)> = Vec::new();
        let mut i: usize = 0;
        while i < self.borrowck_in_facts.borrow_region.len()
            invariant
                s == self.borrowck_in_facts.borrow_region@,
                i <= s.len(),
                pairs@ == borrow_regions(s.subrange(0, i as int), point),
            decreases s.len() - i,
        {
            assert(s.subrange(0, i + 1).drop_last() =~= s.subrange(0, i as int));
            let t = self.borrowck_in_facts.borrow_region[i];
            if t.2 == point {
                pairs.push((t.0, t.1));
            }
            i = i + 1;
        }
        assert(s.subrange(0, i as int) =~= s);
        pairs
    }

    /// The regions live at `point`, each with the variable that owns it.
    pub fn regions_live_at(&self, point: PointIndex) -> (r: Vec<(Region, Option<Local>)>)
        requires
            self.wf(),
        ensures
            r@ == live_regions(
                self.borrowck_in_facts@.region_live_at,
                self.variable_regions@,
                point,
            ),
    {
        let ghost s = self.borrowck_in_facts.region_live_at@;
        let mut regions: Vec<(Region, Option<Local>)> = Vec::new();
        let mut i: usize = 0;
        while i < self.borrowck_in_facts.region_live_at.len()
            invariant
                self.wf(),
                s == self.borrowck_in_facts.region_live_at@,
                i <= s.len(),
                regions@ == live_regions(s.subrange(0, i as int), self.variable_regions@, point),
            decreases s.len() - i,
        {
            assert(s.subrange(0, i + 1).drop_last() =~= s.subrange(0, i as int));
            let t = self.borrowck_in_facts.region_live_at[i];
            if t.1 == point {
                let owner = self.find_variable(t.0);
                regions.push((t.0, owner));
            }
            i = i + 1;
        }
        assert(s.subrange(0, i as int) =~= s);
        regions
    }
}

proof fn lemma_max_loan(borrow_region: Seq<(Region, Loan, PointIndex)>)
    ensures
        forall|i: int| 0 <= i < borrow_region.len() ==> borrow_region[i].1 <= max_loan(borrow_region),
    decreases borrow_region.len(),
{
    if borrow_region.len() > 0 {
        lemma_max_loan(borrow_region.drop_last());
        assert forall|i: int| 0 <= i < borrow_region.len() implies borrow_region[i].1 <= max_loan(
            borrow_region,
        ) by {
            if i < borrow_region.len() - 1 {
                assert(borrow_region.drop_last()[i] == borrow_region[i]);
            }
        }
    }
}

proof fn lemma_point_completion_shape(
    facts: FactsView,
    points: Seq<Point>,
    mir: &Mir,
    variable_regions: Seq<(Local, Region)>,
    point: PointIndex,
    next: nat,
)
    ensures
        ({
            let c = point_completion(facts, points, mir, variable_regions, point, next);
            &&& forall|k: int|
                0 <= k < c.facts.len() ==> c.facts[k].2 == point && c.facts[k].1 == (next
                    + k) as Loan
            &&& pairs_at(facts.outlives, facts.universal_region, point).len() > 0 && (spec_is_call(
                mir,
                points[point as int].location,
            ) || spec_is_assignment(mir, points[point as int].location)) ==> c.facts.len() > 0
            &&& !spec_is_call(mir, points[point as int].location) && !spec_is_assignment(
                mir,
                points[point as int].location,
            ) ==> c.facts.len() == 0 && c.magic_wands.len() == 0 && c.reference_moves.len() == 0
                && c.argument_moves.len() == 0
        }),
{
    let c = point_completion(facts, points, mir, variable_regions, point, next);
    let pairs = pairs_at(facts.outlives, facts.universal_region, point);
    if spec_is_call(mir, points[point as int].location) {
        match destination_region(points, mir, variable_regions, point) {
            Some((local, region)) => {
                let a = argument_facts(pairs, point, next + 1);
                assert forall|k: int| 0 <= k < c.facts.len() implies c.facts[k].2 == point
                    && c.facts[k].1 == (next + k) as Loan by {
                    if k > 0 {
                        assert(c.facts[k] == a[k - 1]);
                    }
                }
            },
            None => {},
        }
    }
}

/// Some outlives tuple before `n` is handled and names `point`.
pub open spec fn handled_before(facts: FactsView, n: int, point: PointIndex) -> bool {
    exists|i: int| 0 <= i < n && handles(facts, i) && facts.outlives[i].2 == point
}

/// Facts of completion_upto: consecutive identifiers, at handled points.
proof fn lemma_completion_shape(
    facts: FactsView,
    points: Seq<Point>,
    mir: &Mir,
    variable_regions: Seq<(Local, Region)>,
    n: int,
)
    requires
        0 <= n <= facts.outlives.len(),
        completion_fits(facts, points),
    ensures
        ({
            let c = completion_upto(facts, points, mir, variable_regions, n);
            &&& forall|k: int|
                0 <= k < c.facts.len() ==> c.facts[k].1 == first_fresh_loan(facts.borrow_region) + k
            &&& forall|k: int| 0 <= k < c.facts.len() ==> handled_before(facts, n, #[trigger] c.facts[k].2)
        }),
    decreases n,
{
    let l = facts.outlives.len() as int;
    if n > 0 {
        lemma_completion_shape(facts, points, mir, variable_regions, n - 1);
        lemma_completion_bound(facts, points, mir, variable_regions, n);
        let prev = completion_upto(facts, points, mir, variable_regions, n - 1);
        let c = completion_upto(facts, points, mir, variable_regions, n);
        let next = first_fresh_loan(facts.borrow_region) + prev.facts.len();
        let p = facts.outlives[n - 1].2;
        let cp = point_completion(facts, points, mir, variable_regions, p, next);
        lemma_point_completion_shape(facts, points, mir, variable_regions, p, next);
        assert forall|k: int| 0 <= k < c.facts.len() implies c.facts[k].1 == first_fresh_loan(
            facts.borrow_region,
        ) + k && handled_before(facts, n, #[trigger] c.facts[k].2) by {
            if k < prev.facts.len() {
                assert(c.facts[k] == prev.facts[k]);
                assert(handled_before(facts, n - 1, prev.facts[k].2));
                let i = choose|i: int|
                    0 <= i < n - 1 && handles(facts, i) && facts.outlives[i].2 == prev.facts[k].2;
                assert(0 <= i < n && handles(facts, i) && facts.outlives[i].2 == c.facts[k].2);
            } else {
                assert(c.facts[k] == cp.facts[k - prev.facts.len()]);
                assert(0 <= n - 1 < n && handles(facts, n - 1) && facts.outlives[n - 1].2
                    == c.facts[k].2);
            }
        }
    }
}

proof fn lemma_completion_prefix(
    facts: FactsView,
    points: Seq<Point>,
    mir: &Mir,
    variable_regions: Seq<(Local, Region)>,
    m: int,
    n: int,
)
    requires
        0 <= m <= n,
    ensures
        completion_upto(facts, points, mir, variable_regions, m).facts.len() <= completion_upto(
            facts,
            points,
            mir,
            variable_regions,
            n,
        ).facts.len(),
        forall|k: int|
            0 <= k < completion_upto(facts, points, mir, variable_regions, m).facts.len()
                ==> completion_upto(facts, points, mir, variable_regions, n).facts[k]
                == completion_upto(facts, points, mir, variable_regions, m).facts[k],
    decreases n - m,
{
    if m < n {
        lemma_completion_prefix(facts, points, mir, variable_regions, m, n - 1);
    }
}

/// Some outlives tuple in `[m, n)` is handled and names `point`.
pub open spec fn handled_between(facts: FactsView, m: int, n: int, point: PointIndex) -> bool {
    exists|i: int| m <= i < n && handles(facts, i) && facts.outlives[i].2 == point
}

proof fn lemma_completion_points_between(
    facts: FactsView,
    points: Seq<Point>,
    mir: &Mir,
    variable_regions: Seq<(Local, Region)>,
    m: int,
    n: int,
)
    requires
        0 <= m <= n <= facts.outlives.len(),
    ensures
        completion_upto(facts, points, mir, variable_regions, m).facts.len() <= completion_upto(
            facts,
            points,
            mir,
            variable_regions,
            n,
        ).facts.len(),
        forall|k: int|
            completion_upto(facts, points, mir, variable_regions, m).facts.len() <= k
                < completion_upto(facts, points, mir, variable_regions, n).facts.len()
                ==> handled_between(
                facts,
                m,
                n,
                #[trigger] completion_upto(facts, points, mir, variable_regions, n).facts[k].2,
            ),
    decreases n - m,
{
    if m < n {
        lemma_completion_points_between(facts, points, mir, variable_regions, m, n - 1);
        let prev = completion_upto(facts, points, mir, variable_regions, n - 1);
        let c = completion_upto(facts, points, mir, variable_regions, n);
        let lo = completion_upto(facts, points, mir, variable_regions, m).facts.len();
        let next = first_fresh_loan(facts.borrow_region) + prev.facts.len();
        let p = facts.outlives[n - 1].2;
        let cp = point_completion(facts, points, mir, variable_regions, p, next);
        lemma_point_completion_shape(facts, points, mir, variable_regions, p, next);
        assert forall|k: int| lo <= k < c.facts.len() implies handled_between(
            facts,
            m,
            n,
            #[trigger] c.facts[k].2,
        ) by {
            if k < prev.facts.len() {
                assert(c.facts[k] == prev.facts[k]);
                assert(handled_between(facts, m, n - 1, prev.facts[k].2));
                let i = choose|i: int|
                    m <= i < n - 1 && handles(facts, i) && facts.outlives[i].2 == prev.facts[k].2;
                assert(m <= i < n && handles(facts, i) && facts.outlives[i].2 == c.facts[k].2);
            } else {
                assert(handles(facts, n - 1));
                assert(c.facts[k] == cp.facts[k - prev.facts.len()]);
                assert(m <= n - 1 < n && handles(facts, n - 1) && facts.outlives[n - 1].2
                    == c.facts[k].2);
            }
        }
    }
}

proof fn lemma_borrow_regions_concat(
    a: Seq<(Region, Loan, PointIndex)>,
    b: Seq<(Region, Loan, PointIndex)>,
    point: PointIndex,
)
    ensures
        borrow_regions(a + b, point) == borrow_regions(a, point) + borrow_regions(b, point),
    decreases b.len(),
{
    if b.len() == 0 {
        assert(a + b =~= a);
        assert(borrow_regions(a, point) + borrow_regions(b, point) =~= borrow_regions(a, point));
    } else {
        lemma_borrow_regions_concat(a, b.drop_last(), point);
        assert((a + b).drop_last() =~= a + b.drop_last());
        assert((a + b).last() == b.last());
        let t = b.last();
        if t.2 == point {
            assert(borrow_regions(a, point) + borrow_regions(b, point) =~= (borrow_regions(a, point)
                + borrow_regions(b.drop_last(), point)).push((t.0, t.1)));
        }
    }
}

proof fn lemma_borrow_regions_none(s: Seq<(Region, Loan, PointIndex)>, point: PointIndex)
    requires
        forall|k: int| 0 <= k < s.len() ==> s[k].2 != point,
    ensures
        borrow_regions(s, point) == Seq::<(Region, Loan)>::empty(),
    decreases s.len(),
{
    if s.len() > 0 {
        lemma_borrow_regions_none(s.drop_last(), point);
    }
}

proof fn lemma_borrow_regions_all(s: Seq<(Region, Loan, PointIndex)>, point: PointIndex)
    requires
        forall|k: int| 0 <= k < s.len() ==> s[k].2 == point,
    ensures
        borrow_regions(s, point) == Seq::new(s.len(), |k: int| (s[k].0, s[k].1)),
    decreases s.len(),
{
    if s.len() > 0 {
        lemma_borrow_regions_all(s.drop_last(), point);
        assert(borrow_regions(s, point) =~= Seq::new(s.len(), |k: int| (s[k].0, s[k].1)));
    }
}

/// Completion covers calls: at a call point that completion handles (some
/// pair between non-universal regions, no loan-creation fact there) whose
/// destination local `local` has region `region`, the completed relation
/// holds at that point exactly one destination loan for `region`, recorded
/// for `local` among the call destinations, then one argument loan per pair
/// at the point, for the pair's first region; all of them fresh.
pub proof fn lemma_call_coverage(
    facts: FactsView,
    points: Seq<Point>,
    mir: &Mir,
    variable_regions: Seq<(Local, Region)>,
    i: int,
    local: Local,
    region: Region,
)
    requires
        completion_fits(facts, points),
        0 <= i < facts.outlives.len(),
        handles(facts, i),
        spec_is_call(mir, points[facts.outlives[i].2 as int].location),
        destination_region(points, mir, variable_regions, facts.outlives[i].2) == Some((local, region)),
    ensures
        ({
            let p = facts.outlives[i].2;
            let c = completion(facts, points, mir, variable_regions);
            let pairs = pairs_at(facts.outlives, facts.universal_region, p);
            exists|d: int|
                #![trigger c.magic_wands.contains((d as Loan, local))]
                d > max_loan(facts.borrow_region) && borrow_regions(facts.borrow_region + c.facts, p)
                    == seq![(region, d as Loan)] + Seq::new(
                    pairs.len(),
                    |j: int| (pairs[j].0, (d + 1 + j) as Loan),
                ) && c.magic_wands.contains((d as Loan, local))
        }),
{
    let o = facts.outlives;
    let u = facts.universal_region;
    let l = o.len() as int;
    let p = o[i].2;
    let pairs = pairs_at(o, u, p);
    let c = completion(facts, points, mir, variable_regions);
    let before = completion_upto(facts, points, mir, variable_regions, i);
    let upto = completion_upto(facts, points, mir, variable_regions, i + 1);
    let d = first_fresh_loan(facts.borrow_region) + before.facts.len();
    let cp = point_completion(facts, points, mir, variable_regions, p, d);
    lemma_completion_shape(facts, points, mir, variable_regions, i);
    lemma_completion_bound(facts, points, mir, variable_regions, i + 1);
    lemma_completion_prefix(facts, points, mir, variable_regions, i + 1, l);
    lemma_completion_points_between(facts, points, mir, variable_regions, i + 1, l);
    assert(upto.facts == before.facts + cp.facts);
    assert(upto.magic_wands == before.magic_wands + cp.magic_wands);
    // split the added facts into those before, at and after the point
    let a = before.facts;
    let rest = c.facts.subrange(upto.facts.len() as int, c.facts.len() as int);
    assert(c.facts =~= a + cp.facts + rest);
    assert forall|k: int| 0 <= k < a.len() implies a[k].2 != p by {
        assert(handled_before(facts, i, a[k].2));
        let j = choose|j: int| 0 <= j < i && handles(facts, j) && o[j].2 == a[k].2;
        if a[k].2 == p {
            assert(is_local_outlives(u, o[j]));
        }
    }
    assert forall|k: int| 0 <= k < rest.len() implies rest[k].2 != p by {
        let kk = k + upto.facts.len();
        assert(rest[k] == c.facts[kk]);
        assert(handled_between(facts, i + 1, l, c.facts[kk].2));
        let j = choose|j: int| i + 1 <= j < l && handles(facts, j) && o[j].2 == c.facts[kk].2;
        if rest[k].2 == p {
            assert(i < j && o[i].2 == o[j].2 && is_local_outlives(u, o[i]));
        }
    }
    assert forall|k: int| 0 <= k < facts.borrow_region.len() implies facts.borrow_region[k].2 != p by {
        if facts.borrow_region[k].2 == p {
            assert(has_loan_at(facts.borrow_region, p));
        }
    }
    lemma_point_completion_shape(facts, points, mir, variable_regions, p, d);
    lemma_borrow_regions_none(facts.borrow_region, p);
    lemma_borrow_regions_none(a, p);
    lemma_borrow_regions_none(rest, p);
    lemma_borrow_regions_all(cp.facts, p);
    assert(facts.borrow_region + c.facts =~= facts.borrow_region + a + cp.facts + rest);
    lemma_borrow_regions_concat(facts.borrow_region + a + cp.facts, rest, p);
    lemma_borrow_regions_concat(facts.borrow_region + a, cp.facts, p);
    lemma_borrow_regions_concat(facts.borrow_region, a, p);
    let expected = seq![(region, d as Loan)] + Seq::new(
        pairs.len(),
        |j: int| (pairs[j].0, (d + 1 + j) as Loan),
    );
    assert(Seq::new(cp.facts.len(), |k: int| (cp.facts[k].0, cp.facts[k].1)) =~= expected);
    assert(borrow_regions(facts.borrow_region + c.facts, p) =~= expected);
    lemma_max_loan(facts.borrow_region);
    // the call destination is recorded
    lemma_completion_magic_wands_prefix(facts, points, mir, variable_regions, i + 1, l);
    assert(cp.magic_wands[0] == (d as Loan, local));
    assert(upto.magic_wands[before.magic_wands.len() as int] == (d as Loan, local));
    assert(c.magic_wands[before.magic_wands.len() as int] == (d as Loan, local));
    assert(c.magic_wands.contains((d as Loan, local)));
}

proof fn lemma_completion_magic_wands_prefix(
    facts: FactsView,
    points: Seq<Point>,
    mir: &Mir,
    variable_regions: Seq<(Local, Region)>,
    m: int,
    n: int,
)
    requires
        0 <= m <= n,
    ensures
        completion_upto(facts, points, mir, variable_regions, m).magic_wands.len()
            <= completion_upto(facts, points, mir, variable_regions, n).magic_wands.len(),
        forall|k: int|
            0 <= k < completion_upto(facts, points, mir, variable_regions, m).magic_wands.len()
                ==> completion_upto(facts, points, mir, variable_regions, n).magic_wands[k]
                == completion_upto(facts, points, mir, variable_regions, m).magic_wands[k],
    decreases n - m,
{
    if m < n {
        lemma_completion_magic_wands_prefix(facts, points, mir, variable_regions, m, n - 1);
    }
}

/// Loan identifiers stay unique: every loan that completion adds differs from
/// every other loan of the completed relation, and where the loans given were
/// pairwise distinct, all loans of the completed relation are.
pub proof fn lemma_fresh_loans_distinct(
    facts: FactsView,
    points: Seq<Point>,
    mir: &Mir,
    variable_regions: Seq<(Local, Region)>,
)
    requires
        completion_fits(facts, points),
    ensures
        ({
            let b = facts.borrow_region;
            let all = b + completion(facts, points, mir, variable_regions).facts;
            &&& forall|i: int, j: int|
                0 <= i < all.len() && 0 <= j < all.len() && i != j && (i >= b.len() || j >= b.len())
                    ==> all[i].1 != all[j].1
            &&& (forall|i: int, j: int|
                0 <= i < b.len() && 0 <= j < b.len() && i != j ==> b[i].1 != b[j].1) ==> forall|
                i: int,
                j: int,
            | 0 <= i < all.len() && 0 <= j < all.len() && i != j ==> all[i].1 != all[j].1
        }),
{
    let b = facts.borrow_region;
    let c = completion(facts, points, mir, variable_regions);
    let all = b + c.facts;
    lemma_completion_shape(facts, points, mir, variable_regions, facts.outlives.len() as int);
    lemma_max_loan(b);
    assert forall|i: int| 0 <= i < all.len() implies (i < b.len() ==> all[i].1 < first_fresh_loan(b))
        && (i >= b.len() ==> all[i].1 == first_fresh_loan(b) + (i - b.len())) by {
        if i < b.len() {
            assert(all[i] == b[i]);
        } else {
            assert(all[i] == c.facts[i - b.len()]);
        }
    }
}

/// Completion leaves alone every point at which a loan-creation fact sits.
pub proof fn lemma_completion_skips_points_with_loans(
    facts: FactsView,
    points: Seq<Point>,
    mir: &Mir,
    variable_regions: Seq<(Local, Region)>,
    point: PointIndex,
)
    requires
        completion_fits(facts, points),
        has_loan_at(facts.borrow_region, point),
    ensures
        forall|k: int|
            0 <= k < completion(facts, points, mir, variable_regions).facts.len()
                ==> completion(facts, points, mir, variable_regions).facts[k].2 != point,
{
    let c = completion(facts, points, mir, variable_regions);
    lemma_completion_shape(facts, points, mir, variable_regions, facts.outlives.len() as int);
    assert forall|k: int| 0 <= k < c.facts.len() implies c.facts[k].2 != point by {
        assert(handled_before(facts, facts.outlives.len() as int, c.facts[k].2));
    }
}

/// The facts after completion: the loan-creation relation extended by what
/// completion adds.
pub open spec fn completed(
    facts: FactsView,
    points: Seq<Point>,
    mir: &Mir,
    variable_regions: Seq<(Local, Region)>,
) -> FactsView {
    FactsView {
        borrow_region: facts.borrow_region + completion(facts, points, mir, variable_regions).facts,
        ..facts
    }
}

/// Completion is idempotent: completing the completed facts again adds no
/// fact, no call destination and no move.
pub proof fn lemma_completion_idempotent(
    facts: FactsView,
    points: Seq<Point>,
    mir: &Mir,
    variable_regions: Seq<(Local, Region)>,
)
    requires
        completion_fits(facts, points),
    ensures
        ({
            let again = completion(
                completed(facts, points, mir, variable_regions),
                points,
                mir,
                variable_regions,
            );
            &&& again.facts.len() == 0
            &&& again.magic_wands.len() == 0
            &&& again.reference_moves.len() == 0
            &&& again.argument_moves.len() == 0
        }),
{
    lemma_idempotent_upto(facts, points, mir, variable_regions, facts.outlives.len() as int);
}

proof fn lemma_idempotent_upto(
    facts: FactsView,
    points: Seq<Point>,
    mir: &Mir,
    variable_regions: Seq<(Local, Region)>,
    n: int,
)
    requires
        completion_fits(facts, points),
        0 <= n <= facts.outlives.len(),
    ensures
        ({
            let again = completion_upto(
                completed(facts, points, mir, variable_regions),
                points,
                mir,
                variable_regions,
                n,
            );
            &&& again.facts.len() == 0
            &&& again.magic_wands.len() == 0
            &&& again.reference_moves.len() == 0
            &&& again.argument_moves.len() == 0
        }),
    decreases n,
{
    let l = facts.outlives.len() as int;
    let g = completed(facts, points, mir, variable_regions);
    let full = completion(facts, points, mir, variable_regions);
    if n > 0 {
        lemma_idempotent_upto(facts, points, mir, variable_regions, n - 1);
        let prev2 = completion_upto(g, points, mir, variable_regions, n - 1);
        if handles(g, n - 1) {
            let p = facts.outlives[n - 1].2;
            assert(!has_loan_at(facts.borrow_region, p)) by {
                if has_loan_at(facts.borrow_region, p) {
                    let i = choose|i: int| 0 <= i < facts.borrow_region.len() && facts.borrow_region[i].2 == p;
                    assert(g.borrow_region[i] == facts.borrow_region[i]);
                }
            }
            assert(handles(facts, n - 1));
            let prev = completion_upto(facts, points, mir, variable_regions, n - 1);
            let next = first_fresh_loan(facts.borrow_region) + prev.facts.len();
            let cp = point_completion(facts, points, mir, variable_regions, p, next);
            lemma_point_completion_shape(facts, points, mir, variable_regions, p, next);
            lemma_point_completion_shape(g, points, mir, variable_regions, p, first_fresh_loan(g.borrow_region) + prev2.facts.len());
            lemma_pairs_at_nonempty(facts.outlives, facts.universal_region, n - 1);
            if spec_is_call(mir, points[p as int].location) || spec_is_assignment(
                mir,
                points[p as int].location,
            ) {
                let cn = completion_upto(facts, points, mir, variable_regions, n);
                assert(cn.facts[prev.facts.len() as int] == cp.facts[0]);
                lemma_completion_prefix(facts, points, mir, variable_regions, n, l);
                let j = (facts.borrow_region.len() + prev.facts.len()) as int;
                assert(g.borrow_region[j] == full.facts[prev.facts.len() as int]);
                assert(has_loan_at(g.borrow_region, p));
                assert(false);
            }
        }
    }
}

} // verus!
