//! The control-flow graph of one function, as the analysis reads it.

use vstd::prelude::*;
use crate::facts::{BasicBlock, Local, Location};

verus! {

/// What a statement does, as far as fact completion cares.
#[derive(Clone, Copy, Debug, PartialEq, Eq, Structural)]
pub enum StatementKind {
    Assign,
    Other,
}

/// A statement with its rendered text.
pub struct Statement {
    pub kind: StatementKind,
    pub text: String,
}

/// How a block ends, with its successors.
pub enum TerminatorKind {
    Goto { target: BasicBlock },
    SwitchInt { targets: Vec<BasicBlock> },
    Resume,
    Abort,
    Return,
    Unreachable,
    Drop { target: BasicBlock, unwind: Option<BasicBlock> },
    DropAndReplace { target: BasicBlock, unwind: Option<BasicBlock> },
    /// `destination` is the local at the base of the destination place and
    /// the block that the call returns to.
    Call { destination: Option<(Local, BasicBlock)>, cleanup: Option<BasicBlock> },
    Assert { target: BasicBlock, cleanup: Option<BasicBlock> },
    FalseEdges { real_target: BasicBlock, imaginary_targets: Vec<BasicBlock> },
    FalseUnwind { real_target: BasicBlock, unwind: Option<BasicBlock> },
}

/// A terminator with its rendered text.
pub struct Terminator {
    pub kind: TerminatorKind,
    pub text: String,
}

pub struct BasicBlockData {
    pub statements: Vec<Statement>,
    pub terminator: Terminator,
}

/// A local variable or temporary: its source name (empty for a temporary)
/// and its rendered type.
pub struct LocalDecl {
    pub name: String,
    pub ty: String,
}

/// A function body: its basic blocks in declaration order, and its locals,
/// the local `i` at index `i`.
pub struct Mir {
    pub basic_blocks: Vec<BasicBlockData>,
    pub local_decls: Vec<LocalDecl>,
}

/// The location is a statement of an existing block.
pub open spec fn is_statement_location(mir: &Mir, location: Location) -> bool {
    &&& location.block < mir.basic_blocks@.len()
    &&& location.statement_index < mir.basic_blocks@[location.block as int].statements@.len()
}

/// The location is the terminator of an existing block.
pub open spec fn is_terminator_location(mir: &Mir, location: Location) -> bool {
    &&& location.block < mir.basic_blocks@.len()
    &&& location.statement_index == mir.basic_blocks@[location.block as int].statements@.len()
}

/// The statement at `location` is an assignment.
pub open spec fn spec_is_assignment(mir: &Mir, location: Location) -> bool {
    &&& is_statement_location(mir, location)
    &&& mir.basic_blocks@[location.block as int].statements@[location.statement_index as int].kind
        == StatementKind::Assign
}

/// The terminator at `location` is a call.
pub open spec fn spec_is_call(mir: &Mir, location: Location) -> bool {
    &&& is_terminator_location(mir, location)
    &&& mir.basic_blocks@[location.block as int].terminator.kind is Call
}

/// The local that the call at `location` writes its result to.
pub open spec fn spec_call_destination(mir: &Mir, location: Location) -> Option<Local> {
    if spec_is_call(mir, location) {
        match mir.basic_blocks@[location.block as int].terminator.kind {
            TerminatorKind::Call { destination: Some((local, _)), .. } => Some(local),
            _ => None,
        }
    } else {
        None
    }
}

/// Checks whether the statement at `location` is an assignment.
pub fn is_assignment(mir: &Mir, location: Location) -> (r: bool)
    ensures
        r == spec_is_assignment(mir, location),
{
    if location.block >= mir.basic_blocks.len() {
        return false;
    }
    let statements = &mir.basic_blocks[location.block].statements;
    if location.statement_index >= statements.len() {
        return false;
    }
    match statements[location.statement_index].kind {
        StatementKind::Assign => true,
        StatementKind::Other => false,
    }
}

/// Checks whether the terminator at `location` is a call.
pub fn is_call(mir: &Mir, location: Location) -> (r: bool)
    ensures
        r == spec_is_call(mir, location),
{
    if location.block >= mir.basic_blocks.len() {
        return false;
    }
    let data = &mir.basic_blocks[location.block];
    if location.statement_index != data.statements.len() {
        return false;
    }
    match data.terminator.kind {
        TerminatorKind::Call { .. } => true,
        _ => false,
    }
}

/// The destination local of the call at `location`; `None` where the call
/// has no destination. A location that holds no call is outside the contract.
pub fn get_call_destination(mir: &Mir, location: Location) -> (r: Option<Local>)
    requires
        spec_is_call(mir, location),
    ensures
        r == spec_call_destination(mir, location),
{
    match mir.basic_blocks[location.block].terminator.kind {
        TerminatorKind::Call { destination: Some((local, _)), .. } => Some(local),
        _ => None,
    }
}

} // verus!
