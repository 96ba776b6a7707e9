use mir_dump::facts::{AllInputFacts, AllOutputFacts, Interner, Location, Point, PointType};
use mir_dump::mir::{BasicBlockData, Mir, Terminator, TerminatorKind};
use mir_dump::polonius_info::{lookup_region, PoloniusInfo, VariableRegionError};

fn empty_mir() -> Mir {
    Mir {
        basic_blocks: vec![BasicBlockData {
            statements: vec![],
            terminator: Terminator { kind: TerminatorKind::Return, text: String::from("return") },
        }],
        local_decls: vec![],
    }
}

fn info(variable_regions: Vec<(usize, usize)>) -> Result<PoloniusInfo, VariableRegionError> {
    let mut interner = Interner::new();
    interner.intern(Point { location: Location { block: 0, statement_index: 0 }, typ: PointType::Start });
    interner.intern(Point { location: Location { block: 0, statement_index: 0 }, typ: PointType::Mid });
    let mut facts = AllInputFacts::new();
    facts.borrow_region.push((5, 1, 0));
    facts.borrow_region.push((6, 2, 1));
    facts.borrow_region.push((7, 3, 0));
    facts.region_live_at.push((5, 0));
    facts.region_live_at.push((8, 0));
    facts.region_live_at.push((6, 1));
    PoloniusInfo::new(facts, interner, &empty_mir(), variable_regions)
}

#[test]
fn two_variables_with_one_region_are_rejected() {
    assert_eq!(info(vec![(1, 5), (2, 5)]).err(), Some(VariableRegionError::SharedRegion));
}

#[test]
fn a_local_with_two_regions_is_rejected() {
    assert_eq!(info(vec![(1, 5), (1, 6)]).err(), Some(VariableRegionError::DuplicateLocal));
}

#[test]
fn find_variable_gives_the_owner() {
    let info = info(vec![(1, 5), (2, 6)]).ok().unwrap();
    assert_eq!(info.find_variable(5), Some(1));
    assert_eq!(info.find_variable(6), Some(2));
    assert_eq!(info.find_variable(7), None);
}

#[test]
fn borrow_regions_at_a_point() {
    let info = info(vec![]).ok().unwrap();
    assert_eq!(info.borrow_regions_at(0), vec![(5, 1), (7, 3)]);
    assert_eq!(info.borrow_regions_at(1), vec![(6, 2)]);
    assert!(info.borrow_regions_at(9).is_empty());
}

#[test]
fn regions_live_at_a_point_with_owners() {
    let info = info(vec![(4, 5)]).ok().unwrap();
    assert_eq!(info.regions_live_at(0), vec![(5, Some(4)), (8, None)]);
    assert_eq!(info.regions_live_at(1), vec![(6, None)]);
}

#[test]
fn live_loans_are_empty_before_solving_and_united_after() {
    let info = info(vec![]).ok().unwrap();
    assert!(info.live_loans_at(0).is_empty());
    let mut output = AllOutputFacts::new();
    output.borrow_live_at.push((0, vec![1, 3]));
    output.borrow_live_at.push((1, vec![2]));
    output.borrow_live_at.push((0, vec![4]));
    let info = info.with_output(output);
    assert_eq!(info.live_loans_at(0), vec![1, 3, 4]);
    assert_eq!(info.live_loans_at(1), vec![2]);
    assert!(info.live_loans_at(7).is_empty());
}

#[test]
fn lookup_region_of_a_local() {
    let map = vec![(1, 5), (2, 6)];
    assert_eq!(lookup_region(&map, 2), Some(6));
    assert_eq!(lookup_region(&map, 3), None);
}
