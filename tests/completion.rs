use mir_dump::facts::{AllInputFacts, Interner, Location, Point, PointType};
use mir_dump::mir::{
    get_call_destination, is_assignment, is_call, BasicBlockData, LocalDecl, Mir, Statement,
    StatementKind, Terminator, TerminatorKind,
};
use mir_dump::polonius_info::add_fake_facts;

fn statement(kind: StatementKind) -> Statement {
    Statement { kind, text: String::from("_1 = &_2") }
}

fn terminator(kind: TerminatorKind) -> Terminator {
    Terminator { kind, text: String::from("terminator") }
}

fn point(block: usize, statement_index: usize, typ: PointType) -> Point {
    Point { location: Location { block, statement_index }, typ }
}

/// bb0: one assignment, then a call of which `_3` is the destination;
/// bb1: return.
fn call_mir() -> Mir {
    Mir {
        basic_blocks: vec![
            BasicBlockData {
                statements: vec![statement(StatementKind::Assign)],
                terminator: terminator(TerminatorKind::Call {
                    destination: Some((3, 1)),
                    cleanup: None,
                }),
            },
            BasicBlockData {
                statements: vec![],
                terminator: terminator(TerminatorKind::Return),
            },
        ],
        local_decls: vec![LocalDecl { name: String::new(), ty: String::from("()") }],
    }
}

/// Interns, in order: bb0[0] Start, bb0[0] Mid, bb0[1] Start, bb0[1] Mid.
fn interner() -> Interner {
    let mut interner = Interner::new();
    interner.intern(point(0, 0, PointType::Start));
    interner.intern(point(0, 0, PointType::Mid));
    interner.intern(point(0, 1, PointType::Start));
    interner.intern(point(0, 1, PointType::Mid));
    interner
}

#[test]
fn call_gets_destination_loan_and_one_argument_loan_per_pair() {
    let mir = call_mir();
    let interner = interner();
    let mut facts = AllInputFacts::new();
    facts.outlives.push((10, 11, 3));
    facts.outlives.push((12, 13, 3));
    let variable_regions = vec![(3usize, 20usize)];
    let mut wands = Vec::new();
    let (reference_moves, argument_moves) =
        add_fake_facts(&mut facts, &interner, &mir, &variable_regions, &mut wands);
    assert_eq!(facts.borrow_region, vec![(20, 1, 3), (10, 2, 3), (12, 3, 3)]);
    assert_eq!(wands, vec![(1, 3)]);
    assert_eq!(argument_moves, vec![2, 3]);
    assert!(reference_moves.is_empty());
}

#[test]
fn call_without_destination_region_gets_only_argument_loans() {
    let mir = call_mir();
    let interner = interner();
    let mut facts = AllInputFacts::new();
    facts.outlives.push((10, 11, 3));
    let mut wands = Vec::new();
    let (_, argument_moves) = add_fake_facts(&mut facts, &interner, &mir, &vec![], &mut wands);
    assert_eq!(facts.borrow_region, vec![(10, 1, 3)]);
    assert!(wands.is_empty());
    assert_eq!(argument_moves, vec![1]);
}

fn assignment_loan(pairs: &[(usize, usize)]) -> Vec<(usize, usize, usize)> {
    let mir = call_mir();
    let interner = interner();
    let mut facts = AllInputFacts::new();
    for &(r1, r2) in pairs {
        facts.outlives.push((r1, r2, 1));
    }
    let mut wands = Vec::new();
    let (reference_moves, argument_moves) =
        add_fake_facts(&mut facts, &interner, &mir, &vec![], &mut wands);
    assert_eq!(reference_moves, vec![1]);
    assert!(argument_moves.is_empty());
    facts.borrow_region
}

#[test]
fn assignment_takes_second_region_of_greatest_pair() {
    assert_eq!(assignment_loan(&[(4, 5), (6, 7)]), vec![(7, 1, 1)]);
    assert_eq!(assignment_loan(&[(6, 2), (6, 7), (3, 9)]), vec![(7, 1, 1)]);
}

#[test]
fn assignment_choice_ignores_the_order_of_pairs() {
    assert_eq!(assignment_loan(&[(1, 2), (3, 4)]), vec![(4, 1, 1)]);
    assert_eq!(assignment_loan(&[(3, 4), (1, 2)]), vec![(4, 1, 1)]);
}

#[test]
fn assignment_with_loan_fact_gets_nothing() {
    let mir = call_mir();
    let interner = interner();
    let mut facts = AllInputFacts::new();
    facts.borrow_region.push((9, 4, 1));
    facts.outlives.push((4, 5, 1));
    let mut wands = Vec::new();
    add_fake_facts(&mut facts, &interner, &mir, &vec![], &mut wands);
    assert_eq!(facts.borrow_region, vec![(9, 4, 1)]);
}

#[test]
fn fresh_loans_follow_the_largest_existing_one() {
    let mir = call_mir();
    let interner = interner();
    let mut facts = AllInputFacts::new();
    facts.borrow_region.push((9, 41, 0));
    facts.borrow_region.push((9, 7, 2));
    facts.outlives.push((4, 5, 1));
    let mut wands = Vec::new();
    add_fake_facts(&mut facts, &interner, &mir, &vec![], &mut wands);
    assert_eq!(facts.borrow_region[2], (5, 42, 1));
}

#[test]
fn universal_regions_are_left_out() {
    let mir = call_mir();
    let interner = interner();
    let mut facts = AllInputFacts::new();
    facts.universal_region.push(4);
    facts.outlives.push((4, 5, 1));
    facts.outlives.push((6, 4, 3));
    let mut wands = Vec::new();
    add_fake_facts(&mut facts, &interner, &mir, &vec![(3, 20)], &mut wands);
    assert!(facts.borrow_region.is_empty());
    assert!(wands.is_empty());
}

#[test]
fn points_that_are_neither_call_nor_assignment_get_nothing() {
    let mir = call_mir();
    let mut interner = interner();
    let mut facts = AllInputFacts::new();
    // The terminator of bb1 is a return.
    let ret = interner.intern(point(1, 0, PointType::Mid));
    facts.outlives.push((4, 5, ret));
    let mut wands = Vec::new();
    add_fake_facts(&mut facts, &interner, &mir, &vec![], &mut wands);
    assert!(facts.borrow_region.is_empty());
}

#[test]
fn loan_ids_are_pairwise_distinct_after_completion() {
    let mir = call_mir();
    let interner = interner();
    let mut facts = AllInputFacts::new();
    facts.borrow_region.push((1, 1, 0));
    facts.borrow_region.push((1, 2, 2));
    facts.outlives.push((4, 5, 1));
    facts.outlives.push((6, 7, 3));
    facts.outlives.push((8, 9, 3));
    let mut wands = Vec::new();
    add_fake_facts(&mut facts, &interner, &mir, &vec![(3, 30)], &mut wands);
    let mut loans: Vec<usize> = facts.borrow_region.iter().map(|t| t.1).collect();
    let n = loans.len();
    loans.sort();
    loans.dedup();
    assert_eq!(loans.len(), n);
    assert_eq!(n, 2 + 1 + 1 + 2);
}

#[test]
fn completing_twice_adds_nothing_the_second_time() {
    let mir = call_mir();
    let interner = interner();
    let mut facts = AllInputFacts::new();
    facts.outlives.push((4, 5, 1));
    facts.outlives.push((6, 7, 3));
    let mut wands = Vec::new();
    add_fake_facts(&mut facts, &interner, &mir, &vec![(3, 30)], &mut wands);
    let once = facts.borrow_region.clone();
    let wands_once = wands.clone();
    let (reference_moves, argument_moves) =
        add_fake_facts(&mut facts, &interner, &mir, &vec![(3, 30)], &mut wands);
    assert_eq!(facts.borrow_region, once);
    assert_eq!(wands, wands_once);
    assert!(reference_moves.is_empty());
    assert!(argument_moves.is_empty());
}

#[test]
fn location_kinds() {
    let mir = call_mir();
    let assign = Location { block: 0, statement_index: 0 };
    let call = Location { block: 0, statement_index: 1 };
    let ret = Location { block: 1, statement_index: 0 };
    let outside = Location { block: 5, statement_index: 0 };
    assert!(is_assignment(&mir, assign));
    assert!(!is_assignment(&mir, call));
    assert!(is_call(&mir, call));
    assert!(!is_call(&mir, assign));
    assert!(!is_call(&mir, ret));
    assert!(!is_call(&mir, outside));
    assert!(!is_assignment(&mir, outside));
    assert_eq!(get_call_destination(&mir, call), Some(3));
}
