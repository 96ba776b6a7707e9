//! The per-function report: one record per statement and terminator, with
//! the loans and regions at its two points, and the control-flow edges.

use vstd::prelude::*;
use crate::configuration::{text_of, Configuration};
use crate::facts::{BasicBlock, Local, Location, Loan, Point, PointIndex, PointType, Region};
use crate::facts::point_id;
use crate::mir::{is_statement_location, Mir, TerminatorKind};
use crate::order::{ascending, ascending_pairs, sorted_pair_set, sorted_set};
use crate::polonius_info::{
    borrow_regions, live_loans, live_regions, region_of, lookup_region, variable_of, PoloniusInfo,
};

verus! {

/// How an edge is drawn.
#[derive(Clone, Copy, Debug, PartialEq, Eq, Structural)]
pub enum EdgeKind {
    Normal,
    /// Taken when unwinding; highlighted.
    Unwind,
    /// Never taken at run time; dashed.
    Imaginary,
}

/// Where an edge goes.
#[derive(Clone, Copy, Debug, PartialEq, Eq, Structural)]
pub enum EdgeTarget {
    Block(BasicBlock),
    Resume,
    Abort,
    Return,
}

/// A control-flow edge out of a block.
#[derive(Clone, Copy, Debug, PartialEq, Eq, Structural)]
pub struct Edge {
    pub source: BasicBlock,
    pub target: EdgeTarget,
    pub kind: EdgeKind,
}

/// The facts at one program point.
pub struct PointFacts {
    /// Loans live here.
    pub loans: Vec<Loan>,
    /// `(region, loan)` of the loans created here.
    pub borrow_regions: Vec<(Region, Loan)>,
    /// Regions live here, each with its owning variable.
    pub regions: Vec<(Region, Option<Local>)>,
}

/// The record of one statement or terminator.
pub struct Row {
    pub location: Location,
    pub text: String,
    pub start: PointFacts,
    pub mid: PointFacts,
    /// The places definitely initialized after this statement.
    pub initialized_after: Vec<String>,
}

/// The records of one block, statements by index and the terminator last,
/// with the edges out of it.
pub struct BlockReport {
    pub block: BasicBlock,
    /// The places definitely initialized before the block.
    pub initialized_before: Vec<String>,
    pub rows: Vec<Row>,
    pub edges: Vec<Edge>,
}

/// A variable of the function with its region.
pub struct VariableRow {
    pub local: Local,
    pub name: String,
    pub ty: String,
    pub region: Option<Region>,
}

/// The result of the definitely-initialized analysis, as rendered places:
/// `before_block[b]` before block `b`, `after_statement[b][k]` after the
/// statement (or terminator) `k` of block `b`.
pub struct Initialization {
    pub before_block: Vec<Vec<String>>,
    pub after_statement: Vec<Vec<Vec<String>>>,
}

/// The texts of a sequence of strings.
pub open spec fn texts(v: Seq<String>) -> Seq<Seq<char>> {
    Seq::new(v.len(), |i: int| v[i]@)
}

/// The places initialized before block `bb`; none where the analysis gives none.
pub open spec fn before_texts(init: &Initialization, bb: BasicBlock) -> Seq<Seq<char>> {
    if bb < init.before_block@.len() {
        texts(init.before_block@[bb as int]@)
    } else {
        Seq::empty()
    }
}

/// The places initialized after `location`; none where the analysis gives none.
pub open spec fn after_texts(init: &Initialization, location: Location) -> Seq<Seq<char>> {
    if location.block < init.after_statement@.len() && location.statement_index
        < init.after_statement@[location.block as int]@.len() {
        texts(init.after_statement@[location.block as int]@[location.statement_index as int]@)
    } else {
        Seq::empty()
    }
}

fn copy_texts(v: &Vec<String>) -> (r: Vec<String>)
    ensures
        texts(r@) == texts(v@),
{
    let mut r: Vec<String> = Vec::new();
    let mut i: usize = 0;
    while i < v.len()
        invariant
            i <= v@.len(),
            r@.len() == i,
            forall|j: int| 0 <= j < i ==> r@[j]@ == v@[j]@,
        decreases v@.len() - i,
    {
        r.push(v[i].clone());
        i = i + 1;
    }
    assert(texts(r@) =~= texts(v@));
    r
}

/// The places initialized before block `bb`.
pub fn get_definitely_initialized_before_block(init: &Initialization, bb: BasicBlock) -> (r: Vec<String>)
    ensures
        texts(r@) == before_texts(init, bb),
{
    if bb < init.before_block.len() {
        copy_texts(&init.before_block[bb])
    } else {
        let r: Vec<String> = Vec::new();
        assert(texts(r@) =~= Seq::<Seq<char>>::empty());
        r
    }
}

/// The places initialized after `location`.
pub fn get_definitely_initialized_after_statement(init: &Initialization, location: Location) -> (r: Vec<
    String,
>)
    ensures
        texts(r@) == after_texts(init, location),
{
    if location.block < init.after_statement.len() && location.statement_index
        < init.after_statement[location.block].len() {
        copy_texts(&init.after_statement[location.block][location.statement_index])
    } else {
        let r: Vec<String> = Vec::new();
        assert(texts(r@) =~= Seq::<Seq<char>>::empty());
        r
    }
}

/// The report of one function.
pub struct Report {
    pub blocks: Vec<BlockReport>,
    /// Empty unless the settings ask for the variables.
    pub variables: Vec<VariableRow>,
}

pub open spec fn edge(source: BasicBlock, target: EdgeTarget, kind: EdgeKind) -> Edge {
    Edge { source, target, kind }
}

/// One edge of `kind` to each block of `targets`, in order.
pub open spec fn edges_to(source: BasicBlock, targets: Seq<BasicBlock>, kind: EdgeKind) -> Seq<Edge> {
    Seq::new(targets.len(), |i: int| edge(source, EdgeTarget::Block(targets[i]), kind))
}

/// An edge of `kind` to `target`, if there is one.
pub open spec fn optional_edge(source: BasicBlock, target: Option<BasicBlock>, kind: EdgeKind) -> Seq<
    Edge,
> {
    match target {
        Some(t) => seq![edge(source, EdgeTarget::Block(t), kind)],
        None => Seq::empty(),
    }
}

/// The edges out of block `bb` that ends with `kind`.
pub open spec fn terminator_edges(bb: BasicBlock, kind: TerminatorKind) -> Seq<Edge> {
    match kind {
        TerminatorKind::Goto { target } => seq![edge(bb, EdgeTarget::Block(target), EdgeKind::Normal)],
        TerminatorKind::SwitchInt { targets } => edges_to(bb, targets@, EdgeKind::Normal),
        TerminatorKind::Resume => seq![edge(bb, EdgeTarget::Resume, EdgeKind::Normal)],
        TerminatorKind::Abort => seq![edge(bb, EdgeTarget::Abort, EdgeKind::Normal)],
        TerminatorKind::Return => seq![edge(bb, EdgeTarget::Return, EdgeKind::Normal)],
        TerminatorKind::Unreachable => Seq::empty(),
        TerminatorKind::Drop { target, unwind } => seq![
            edge(bb, EdgeTarget::Block(target), EdgeKind::Normal),
        ] + optional_edge(bb, unwind, EdgeKind::Unwind),
        TerminatorKind::DropAndReplace { target, unwind } => seq![
            edge(bb, EdgeTarget::Block(target), EdgeKind::Normal),
        ] + optional_edge(bb, unwind, EdgeKind::Unwind),
        TerminatorKind::Call { destination, cleanup } => optional_edge(
            bb,
            match destination {
                Some((_, target)) => Some(target),
                None => None,
            },
            EdgeKind::Normal,
        ) + optional_edge(bb, cleanup, EdgeKind::Unwind),
        TerminatorKind::Assert { target, cleanup } => seq![
            edge(bb, EdgeTarget::Block(target), EdgeKind::Normal),
        ] + optional_edge(bb, cleanup, EdgeKind::Unwind),
        TerminatorKind::FalseEdges { real_target, imaginary_targets } => seq![
            edge(bb, EdgeTarget::Block(real_target), EdgeKind::Normal),
        ] + edges_to(bb, imaginary_targets@, EdgeKind::Imaginary),
        TerminatorKind::FalseUnwind { real_target, unwind } => seq![
            edge(bb, EdgeTarget::Block(real_target), EdgeKind::Normal),
        ] + optional_edge(bb, unwind, EdgeKind::Imaginary),
    }
}

/// The identifier of the point, if it was interned.
pub open spec fn spec_point_index(info: &PoloniusInfo, point: Point) -> Option<PointIndex> {
    if info.interner@.contains(point) {
        Some(point_id(info.interner@, point) as PointIndex)
    } else {
        None
    }
}

/// The regions of a sequence of (region, owner) pairs.
pub open spec fn region_ids(s: Seq<(Region, Option<Local>)>) -> Seq<Region> {
    Seq::new(s.len(), |k: int| s[k].0)
}

/// The facts at `point`, each set ascending and without repeats; none at a
/// point that was never interned.
pub open spec fn point_facts_match(f: PointFacts, info: &PoloniusInfo, point: Point) -> bool {
    match spec_point_index(info, point) {
        Some(id) => {
            &&& ascending(f.loans@)
            &&& forall|l: Loan|
                f.loans@.contains(l) <==> live_loans(info.borrowck_out_facts.borrow_live_at@, id).contains(l)
            &&& ascending_pairs(f.borrow_regions@)
            &&& forall|x: (Region, Loan)|
                f.borrow_regions@.contains(x) <==> borrow_regions(
                    info.borrowck_in_facts@.borrow_region,
                    id,
                ).contains(x)
            &&& ascending(region_ids(f.regions@))
            &&& forall|r: Region|
                region_ids(f.regions@).contains(r) <==> region_ids(
                    live_regions(info.borrowck_in_facts@.region_live_at, info.variable_regions@, id),
                ).contains(r)
            &&& forall|k: int|
                0 <= k < f.regions@.len() ==> f.regions@[k].1 == variable_of(
                    info.variable_regions@,
                    f.regions@[k].0,
                )
        },
        None => f.loans@.len() == 0 && f.borrow_regions@.len() == 0 && f.regions@.len() == 0,
    }
}

/// The record of `location`, with rendered `text`.
pub open spec fn row_matches(
    row: Row,
    info: &PoloniusInfo,
    init: &Initialization,
    location: Location,
    text: Seq<char>,
) -> bool {
    &&& row.location == location
    &&& texts(row.initialized_after@) == after_texts(init, location)
    &&& row.text@ == text
    &&& point_facts_match(row.start, info, Point { location, typ: PointType::Start })
    &&& point_facts_match(row.mid, info, Point { location, typ: PointType::Mid })
}

/// The report of block `bb`.
pub open spec fn block_matches(
    b: BlockReport,
    info: &PoloniusInfo,
    init: &Initialization,
    mir: &Mir,
    bb: BasicBlock,
) -> bool {
    let data = mir.basic_blocks@[bb as int];
    let n = data.statements@.len();
    &&& b.block == bb
    &&& texts(b.initialized_before@) == before_texts(init, bb)
    &&& b.rows@.len() == n + 1
    &&& forall|k: int|
        0 <= k < n ==> row_matches(
            #[trigger] b.rows@[k],
            info,
            init,
            Location { block: bb, statement_index: k as usize },
            data.statements@[k].text@,
        )
    &&& row_matches(
        b.rows@[n as int],
        info,
        init,
        Location { block: bb, statement_index: n as usize },
        data.terminator.text@,
    )
    &&& b.edges@ == terminator_edges(bb, data.terminator.kind)
}

/// The row of the variable table for local `i`.
pub open spec fn variable_matches(v: VariableRow, info: &PoloniusInfo, mir: &Mir, i: int) -> bool {
    &&& v.local == i
    &&& v.name@ == mir.local_decls@[i].name@
    &&& v.ty@ == mir.local_decls@[i].ty@
    &&& v.region == region_of(info.variable_regions@, i as Local)
}

fn push_edges(edges: &mut Vec<Edge>, source: BasicBlock, targets: &Vec<BasicBlock>, kind: EdgeKind)
    ensures
        final(edges)@ == old(edges)@ + edges_to(source, targets@, kind),
{
    let ghost base = edges@;
    let mut i: usize = 0;
    while i < targets.len()
        invariant
            i <= targets@.len(),
            edges@ == base + edges_to(source, targets@.subrange(0, i as int), kind),
        decreases targets@.len() - i,
    {
        edges.push(Edge { source, target: EdgeTarget::Block(targets[i]), kind });
        i = i + 1;
        assert(edges_to(source, targets@.subrange(0, i as int), kind) =~= edges_to(
            source,
            targets@.subrange(0, i - 1),
            kind,
        ).push(edge(source, EdgeTarget::Block(targets@[i - 1]), kind)));
    }
    assert(targets@.subrange(0, i as int) =~= targets@);
}

fn push_optional_edge(edges: &mut Vec<Edge>, source: BasicBlock, target: Option<BasicBlock>, kind: EdgeKind)
    ensures
        final(edges)@ == old(edges)@ + optional_edge(source, target, kind),
{
    match target {
        Some(t) => {
            edges.push(Edge { source, target: EdgeTarget::Block(t), kind });
        },
        None => {},
    }
    assert(final(edges)@ =~= old(edges)@ + optional_edge(source, target, kind));
}

/// The name ends with `suffix`.
pub open spec fn has_suffix(name: Seq<char>, suffix: Seq<char>) -> bool {
    name.len() >= suffix.len() && name.subrange(name.len() - suffix.len(), name.len() as int) == suffix
}

/// A function is reported unless it is a specification function (its name
/// ends with `__spec`) or the settings name another function.
pub open spec fn spec_should_dump(config: Configuration, name: Seq<char>) -> bool {
    &&& !has_suffix(name, "__spec"@)
    &&& match text_of(config.dump_mir_proc) {
        Some(only) => only == name,
        None => true,
    }
}

fn ends_with(name: &str, suffix: &str) -> (r: bool)
    ensures
        r == has_suffix(name@, suffix@),
{
    let n = name.unicode_len();
    let m = suffix.unicode_len();
    if n < m {
        return false;
    }
    let ghost tail = name@.subrange(n - m, n as int);
    let mut k: usize = 0;
    while k < m
        invariant
            n == name@.len(),
            m == suffix@.len(),
            m <= n,
            tail == name@.subrange(n - m, n as int),
            k <= m,
            forall|j: int| 0 <= j < k ==> tail[j] == suffix@[j],
        decreases m - k,
    {
        if name.get_char(n - m + k) != suffix.get_char(k) {
            assert(tail[k as int] != suffix@[k as int]);
            return false;
        }
        k = k + 1;
    }
    assert(tail =~= suffix@);
    true
}

fn same_text(a: &str, b: &str) -> (r: bool)
    ensures
        r == (a@ == b@),
{
    let n = a.unicode_len();
    if n != b.unicode_len() {
        return false;
    }
    let mut k: usize = 0;
    while k < n
        invariant
            n == a@.len(),
            n == b@.len(),
            k <= n,
            forall|j: int| 0 <= j < k ==> a@[j] == b@[j],
        decreases n - k,
    {
        if a.get_char(k) != b.get_char(k) {
            return false;
        }
        k = k + 1;
    }
    assert(a@ =~= b@);
    true
}

/// Whether the function called `name` is reported.
pub fn should_dump_function(config: &Configuration, name: &str) -> (r: bool)
    ensures
        r == spec_should_dump(*config, name@),
{
    if ends_with(name, "__spec") {
        return false;
    }
    match &config.dump_mir_proc {
        Some(only) => same_text(only.as_str(), name),
        None => true,
    }
}

/// The printer of one function's report.
pub struct MirInfoPrinter {
    pub mir: Mir,
    pub polonius_info: PoloniusInfo,
}

impl MirInfoPrinter {
    pub open spec fn wf(&self) -> bool {
        self.polonius_info.wf()
    }

    /// The identifier of the point of `location` and `point_type`, if interned.
    pub fn get_point(&self, location: Location, point_type: PointType) -> (r: Option<PointIndex>)
        requires
            self.wf(),
        ensures
            r == spec_point_index(&self.polonius_info, Point { location, typ: point_type }),
    {
        let point = Point { location, typ: point_type };
        self.polonius_info.interner.get_point_index(&point)
    }

    /// The facts at the point of `location` and `point_type`, each set
    /// ascending and without repeats.
    pub fn point_facts(&self, location: Location, point_type: PointType) -> (r: PointFacts)
        requires
            self.wf(),
        ensures
            point_facts_match(r, &self.polonius_info, Point { location, typ: point_type }),
    {
        match self.get_point(location, point_type) {
            Some(id) => {
                let loans = sorted_set(&self.polonius_info.live_loans_at(id));
                let borrow_regions = sorted_pair_set(&self.polonius_info.borrow_regions_at(id));
                let live = self.polonius_info.regions_live_at(id);
                let mut ids: Vec<Region> = Vec::new();
                let mut k: usize = 0;
                while k < live.len()
                    invariant
                        k <= live@.len(),
                        ids@.len() == k,
                        forall|j: int| 0 <= j < k ==> ids@[j] == live@[j].0,
                    decreases live@.len() - k,
                {
                    ids.push(live[k].0);
                    k = k + 1;
                }
                assert(ids@ =~= region_ids(live@));
                let ids = sorted_set(&ids);
                let mut regions: Vec<(Region, Option<Local>)> = Vec::new();
                let mut k: usize = 0;
                while k < ids.len()
                    invariant
                        self.wf(),
                        k <= ids@.len(),
                        regions@.len() == k,
                        forall|j: int|
                            0 <= j < k ==> regions@[j] == (ids@[j], variable_of(
                                self.polonius_info.variable_regions@,
                                ids@[j],
                            )),
                    decreases ids@.len() - k,
                {
                    let owner = self.polonius_info.find_variable(ids[k]);
                    regions.push((ids[k], owner));
                    k = k + 1;
                }
                assert(region_ids(regions@) =~= ids@);
                PointFacts { loans, borrow_regions, regions }
            },
            None => PointFacts { loans: Vec::new(), borrow_regions: Vec::new(), regions: Vec::new() },
        }
    }

    fn row(&self, init: &Initialization, location: Location, text: &String) -> (r: Row)
        requires
            self.wf(),
        ensures
            row_matches(r, &self.polonius_info, init, location, text@),
    {
        Row {
            location,
            text: text.clone(),
            start: self.point_facts(location, PointType::Start),
            mid: self.point_facts(location, PointType::Mid),
            initialized_after: get_definitely_initialized_after_statement(init, location),
        }
    }

    /// The record of the statement at `location`.
    pub fn visit_statement(&self, init: &Initialization, location: Location) -> (r: Row)
        requires
            self.wf(),
            is_statement_location(&self.mir, location),
        ensures
            row_matches(
                r,
                &self.polonius_info,
                init,
                location,
                self.mir.basic_blocks@[location.block as int].statements@[location.statement_index as int].text@,
            ),
    {
        let statement = &self.mir.basic_blocks[location.block].statements[location.statement_index];
        self.row(init, location, &statement.text)
    }

    /// The edges out of block `bb`.
    pub fn visit_terminator(&self, bb: BasicBlock) -> (r: Vec<Edge>)
        requires
            bb < self.mir.basic_blocks@.len(),
        ensures
            r@ == terminator_edges(bb, self.mir.basic_blocks@[bb as int].terminator.kind),
    {
        let mut edges: Vec<Edge> = Vec::new();
        match &self.mir.basic_blocks[bb].terminator.kind {
            TerminatorKind::Goto { target } => {
                edges.push(Edge { source: bb, target: EdgeTarget::Block(*target), kind: EdgeKind::Normal });
            },
            TerminatorKind::SwitchInt { targets } => {
                push_edges(&mut edges, bb, targets, EdgeKind::Normal);
            },
            TerminatorKind::Resume => {
                edges.push(Edge { source: bb, target: EdgeTarget::Resume, kind: EdgeKind::Normal });
            },
            TerminatorKind::Abort => {
                edges.push(Edge { source: bb, target: EdgeTarget::Abort, kind: EdgeKind::Normal });
            },
            TerminatorKind::Return => {
                edges.push(Edge { source: bb, target: EdgeTarget::Return, kind: EdgeKind::Normal });
            },
            TerminatorKind::Unreachable => {},
            TerminatorKind::Drop { target, unwind } | TerminatorKind::DropAndReplace {
                target,
                unwind,
            } => {
                edges.push(Edge { source: bb, target: EdgeTarget::Block(*target), kind: EdgeKind::Normal });
                push_optional_edge(&mut edges, bb, *unwind, EdgeKind::Unwind);
            },
            TerminatorKind::Call { destination, cleanup } => {
                match destination {
                    Some((_, target)) => {
                        edges.push(Edge { source: bb, target: EdgeTarget::Block(*target), kind: EdgeKind::Normal });
                    },
                    None => {},
                }
                push_optional_edge(&mut edges, bb, *cleanup, EdgeKind::Unwind);
            },
            TerminatorKind::Assert { target, cleanup } => {
                edges.push(Edge { source: bb, target: EdgeTarget::Block(*target), kind: EdgeKind::Normal });
                push_optional_edge(&mut edges, bb, *cleanup, EdgeKind::Unwind);
            },
            TerminatorKind::FalseEdges { real_target, imaginary_targets } => {
                edges.push(Edge { source: bb, target: EdgeTarget::Block(*real_target), kind: EdgeKind::Normal });
                push_edges(&mut edges, bb, imaginary_targets, EdgeKind::Imaginary);
            },
            TerminatorKind::FalseUnwind { real_target, unwind } => {
                edges.push(Edge { source: bb, target: EdgeTarget::Block(*real_target), kind: EdgeKind::Normal });
                push_optional_edge(&mut edges, bb, *unwind, EdgeKind::Imaginary);
            },
        }
        assert(edges@ =~= terminator_edges(bb, self.mir.basic_blocks@[bb as int].terminator.kind));
        edges
    }

    /// The records and edges of block `bb`.
    pub fn visit_basic_block(&self, init: &Initialization, bb: BasicBlock) -> (r: BlockReport)
        requires
            self.wf(),
            bb < self.mir.basic_blocks@.len(),
        ensures
            block_matches(r, &self.polonius_info, init, &self.mir, bb),
    {
        let data = &self.mir.basic_blocks[bb];
        let n = data.statements.len();
        let mut rows: Vec<Row> = Vec::new();
        let mut k: usize = 0;
        while k < n
            invariant
                self.wf(),
                bb < self.mir.basic_blocks@.len(),
                *data == self.mir.basic_blocks@[bb as int],
                n == data.statements@.len(),
                k <= n,
                rows@.len() == k,
                forall|j: int|
                    0 <= j < k ==> row_matches(
                        #[trigger] rows@[j],
                        &self.polonius_info,
                        init,
                        Location { block: bb, statement_index: j as usize },
                        data.statements@[j].text@,
                    ),
            decreases n - k,
        {
            let location = Location { block: bb, statement_index: k };
            rows.push(self.visit_statement(init, location));
            k = k + 1;
        }
        let location = Location { block: bb, statement_index: n };
        rows.push(self.row(init, location, &data.terminator.text));
        let edges = self.visit_terminator(bb);
        let initialized_before = get_definitely_initialized_before_block(init, bb);
        BlockReport { block: bb, initialized_before, rows, edges }
    }

    /// The table of variables, local by local, with their regions.
    pub fn print_temp_variables(&self) -> (r: Vec<VariableRow>)
        ensures
            r@.len() == self.mir.local_decls@.len(),
            forall|i: int|
                0 <= i < r@.len() ==> variable_matches(#[trigger] r@[i], &self.polonius_info, &self.mir, i),
    {
        let mut rows: Vec<VariableRow> = Vec::new();
        let mut i: usize = 0;
        while i < self.mir.local_decls.len()
            invariant
                i <= self.mir.local_decls@.len(),
                rows@.len() == i,
                forall|j: int|
                    0 <= j < i ==> variable_matches(#[trigger] rows@[j], &self.polonius_info, &self.mir, j),
            decreases self.mir.local_decls@.len() - i,
        {
            let decl = &self.mir.local_decls[i];
            rows.push(
                VariableRow {
                    local: i,
                    name: decl.name.clone(),
                    ty: decl.ty.clone(),
                    region: lookup_region(&self.polonius_info.variable_regions, i),
                },
            );
            i = i + 1;
        }
        rows
    }

    /// The whole report: blocks in declaration order, then the variables
    /// where `config` asks for them.
    pub fn print_info(&self, config: &Configuration, init: &Initialization) -> (r: Report)
        requires
            self.wf(),
        ensures
            r.blocks@.len() == self.mir.basic_blocks@.len(),
            forall|b: int|
                0 <= b < r.blocks@.len() ==> block_matches(
                    #[trigger] r.blocks@[b],
                    &self.polonius_info,
                    init,
                    &self.mir,
                    b as BasicBlock,
                ),
            config.dump_show_temp_variables ==> r.variables@.len() == self.mir.local_decls@.len()
                && forall|i: int|
                0 <= i < r.variables@.len() ==> variable_matches(
                    #[trigger] r.variables@[i],
                    &self.polonius_info,
                    &self.mir,
                    i,
                ),
            !config.dump_show_temp_variables ==> r.variables@.len() == 0,
    {
        let mut blocks: Vec<BlockReport> = Vec::new();
        let mut b: usize = 0;
        while b < self.mir.basic_blocks.len()
            invariant
                self.wf(),
                b <= self.mir.basic_blocks@.len(),
                blocks@.len() == b,
                forall|j: int|
                    0 <= j < b ==> block_matches(
                        #[trigger] blocks@[j],
                        &self.polonius_info,
                        init,
                        &self.mir,
                        j as BasicBlock,
                    ),
            decreases self.mir.basic_blocks@.len() - b,
        {
            blocks.push(self.visit_basic_block(init, b));
            b = b + 1;
        }
        let variables = if config.dump_show_temp_variables {
            self.print_temp_variables()
        } else {
            Vec::new()
        };
        Report { blocks, variables }
    }
}

} // verus!
