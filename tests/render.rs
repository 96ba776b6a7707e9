use mir_dump::configuration::Configuration;
use mir_dump::facts::{AllInputFacts, AllOutputFacts, Interner, Location, Point, PointType};
use mir_dump::mir::{
    BasicBlockData, LocalDecl, Mir, Statement, StatementKind, Terminator, TerminatorKind,
};
use mir_dump::mir_dumper::{Edge, EdgeKind, EdgeTarget, Initialization, MirInfoPrinter};
use mir_dump::mir_dumper::EdgeKind::{Imaginary, Normal, Unwind};
use mir_dump::mir_dumper::EdgeTarget::{Abort, Block, Resume, Return};
use mir_dump::polonius_info::PoloniusInfo;

fn point(block: usize, statement_index: usize, typ: PointType) -> Point {
    Point { location: Location { block, statement_index }, typ }
}

fn block(statements: Vec<Statement>, kind: TerminatorKind) -> BasicBlockData {
    BasicBlockData { statements, terminator: Terminator { kind, text: String::from("term") } }
}

/// bb0: `_1 = &_2`, goto bb1; bb1: return.
fn two_block_mir() -> Mir {
    Mir {
        basic_blocks: vec![
            block(
                vec![Statement { kind: StatementKind::Assign, text: String::from("_1 = &_2") }],
                TerminatorKind::Goto { target: 1 },
            ),
            block(vec![], TerminatorKind::Return),
        ],
        local_decls: vec![
            LocalDecl { name: String::new(), ty: String::from("()") },
            LocalDecl { name: String::from("x"), ty: String::from("&i32") },
        ],
    }
}

fn printer_for(mir: Mir, terminator_only: bool) -> MirInfoPrinter {
    let mut interner = Interner::new();
    interner.intern(point(0, 0, PointType::Start));
    let mid = interner.intern(point(0, 0, PointType::Mid));
    interner.intern(point(0, 1, PointType::Start));
    interner.intern(point(0, 1, PointType::Mid));
    let mut facts = AllInputFacts::new();
    if !terminator_only {
        facts.outlives.push((1, 2, mid));
    }
    let info = PoloniusInfo::new(facts, interner, &mir, vec![(1, 2)]).ok().unwrap();
    let mut output = AllOutputFacts::new();
    output.borrow_live_at.push((3, vec![1]));
    let info = info.with_output(output);
    MirInfoPrinter { mir, polonius_info: info }
}

#[test]
fn end_to_end_reference_assignment_then_return() {
    let printer = printer_for(two_block_mir(), false);
    let init = Initialization {
        before_block: vec![vec![String::from("_2")]],
        after_statement: vec![vec![vec![String::from("_1"), String::from("_2")], vec![]]],
    };
    let report = printer.print_info(&Configuration::defaults(), &init);
    assert_eq!(report.blocks.len(), 2);
    assert_eq!(report.blocks[0].initialized_before, vec![String::from("_2")]);
    assert_eq!(report.blocks[0].rows[0].initialized_after, vec![String::from("_1"), String::from("_2")]);
    assert!(report.blocks[0].rows[1].initialized_after.is_empty());
    assert!(report.blocks[1].initialized_before.is_empty());
    assert!(report.blocks[1].rows[0].initialized_after.is_empty());
    let bb0 = &report.blocks[0];
    assert_eq!(bb0.rows.len(), 2);
    assert_eq!(bb0.rows[0].text, "_1 = &_2");
    assert!(bb0.rows[0].start.borrow_regions.is_empty());
    assert_eq!(bb0.rows[0].mid.borrow_regions, vec![(2, 1)]);
    assert!(bb0.rows[1].start.borrow_regions.is_empty());
    assert!(bb0.rows[1].mid.borrow_regions.is_empty());
    assert_eq!(bb0.rows[1].mid.loans, vec![1]);
    assert_eq!(
        bb0.edges,
        vec![Edge { source: 0, target: Block(1), kind: Normal }]
    );
    let bb1 = &report.blocks[1];
    assert_eq!(bb1.rows.len(), 1);
    assert_eq!(
        bb1.edges,
        vec![Edge { source: 1, target: Return, kind: Normal }]
    );
    assert_eq!(report.variables.len(), 2);
    assert_eq!(report.variables[1].name, "x");
    assert_eq!(report.variables[1].region, Some(2));
    assert_eq!(report.variables[0].region, None);
}

#[test]
fn rendering_empty_facts_gives_empty_rows() {
    let printer = printer_for(two_block_mir(), true);
    let mut config = Configuration::defaults();
    config.dump_show_temp_variables = false;
    let init = Initialization { before_block: vec![], after_statement: vec![] };
    let report = printer.print_info(&config, &init);
    assert!(report.variables.is_empty());
    let row = &report.blocks[1].rows[0];
    assert!(row.start.loans.is_empty());
    assert!(row.mid.borrow_regions.is_empty());
    assert!(row.mid.regions.is_empty());
}

fn edges_of(kind: TerminatorKind) -> Vec<Edge> {
    let mir = Mir { basic_blocks: vec![block(vec![], kind)], local_decls: vec![] };
    printer_for(mir, true).visit_terminator(0)
}

fn e(target: EdgeTarget, kind: EdgeKind) -> Edge {
    Edge { source: 0, target, kind }
}

#[test]
fn edges_of_each_terminator_kind() {
    assert_eq!(edges_of(TerminatorKind::SwitchInt { targets: vec![2, 3] }), vec![
        e(Block(2), Normal),
        e(Block(3), Normal)
    ]);
    assert_eq!(edges_of(TerminatorKind::Resume), vec![e(Resume, Normal)]);
    assert_eq!(edges_of(TerminatorKind::Abort), vec![e(Abort, Normal)]);
    assert_eq!(edges_of(TerminatorKind::Return), vec![e(Return, Normal)]);
    assert!(edges_of(TerminatorKind::Unreachable).is_empty());
    assert_eq!(edges_of(TerminatorKind::Drop { target: 1, unwind: Some(2) }), vec![
        e(Block(1), Normal),
        e(Block(2), Unwind)
    ]);
    assert_eq!(edges_of(TerminatorKind::DropAndReplace { target: 1, unwind: None }), vec![
        e(Block(1), Normal)
    ]);
    assert_eq!(
        edges_of(TerminatorKind::Call { destination: Some((4, 1)), cleanup: Some(5) }),
        vec![e(Block(1), Normal), e(Block(5), Unwind)]
    );
    assert_eq!(edges_of(TerminatorKind::Call { destination: None, cleanup: None }), vec![]);
    assert_eq!(edges_of(TerminatorKind::Assert { target: 1, cleanup: Some(6) }), vec![
        e(Block(1), Normal),
        e(Block(6), Unwind)
    ]);
    assert_eq!(
        edges_of(TerminatorKind::FalseEdges { real_target: 1, imaginary_targets: vec![7, 8] }),
        vec![e(Block(1), Normal), e(Block(7), Imaginary), e(Block(8), Imaginary)]
    );
    assert_eq!(edges_of(TerminatorKind::FalseUnwind { real_target: 1, unwind: Some(9) }), vec![
        e(Block(1), Normal),
        e(Block(9), Imaginary)
    ]);
}

#[test]
fn points_never_interned_have_no_facts() {
    let printer = printer_for(two_block_mir(), false);
    assert_eq!(printer.get_point(Location { block: 1, statement_index: 0 }, PointType::Start), None);
    assert_eq!(printer.get_point(Location { block: 0, statement_index: 0 }, PointType::Mid), Some(1));
    let facts = printer.point_facts(Location { block: 1, statement_index: 0 }, PointType::Mid);
    assert!(facts.loans.is_empty() && facts.borrow_regions.is_empty() && facts.regions.is_empty());
}

#[test]
fn record_sets_are_ascending_without_repeats() {
    let mut interner = Interner::new();
    let start = interner.intern(point(0, 0, PointType::Start));
    let mut facts = AllInputFacts::new();
    facts.borrow_region.push((8, 4, start));
    facts.borrow_region.push((3, 9, start));
    facts.borrow_region.push((8, 2, start));
    facts.borrow_region.push((3, 9, start));
    facts.region_live_at.push((9, start));
    facts.region_live_at.push((2, start));
    facts.region_live_at.push((9, start));
    let mir = two_block_mir();
    let info = PoloniusInfo::new(facts, interner, &mir, vec![(1, 2)]).ok().unwrap();
    let mut output = AllOutputFacts::new();
    output.borrow_live_at.push((start, vec![5, 1, 5]));
    output.borrow_live_at.push((start, vec![2]));
    let printer = MirInfoPrinter { mir, polonius_info: info.with_output(output) };
    let facts = printer.point_facts(Location { block: 0, statement_index: 0 }, PointType::Start);
    assert_eq!(facts.loans, vec![1, 2, 5]);
    assert_eq!(facts.borrow_regions, vec![(3, 9), (8, 2), (8, 4)]);
    assert_eq!(facts.regions, vec![(2, Some(1)), (9, None)]);
}
