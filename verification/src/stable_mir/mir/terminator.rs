//! Terminators: how control leaves a block.

use vstd::prelude::*;

use crate::stable_mir::crate_def::Span;
use crate::stable_mir::mir::{BasicBlockIdx, Operand, Place};

verus! {

/// The last instruction of a block.
#[derive(Debug, Clone)]
pub struct Terminator {
    pub kind: TerminatorKind,
    pub span: Span,
}

/// The ways control can leave a block.
#[derive(Debug, Clone)]
pub enum TerminatorKind {
    Goto { target: BasicBlockIdx },
    SwitchInt { discr: Operand, targets: SwitchTargets },
    Resume,
    Abort,
    Return,
    Unreachable,
    Drop { place: Place, target: BasicBlockIdx, unwind: UnwindAction },
    Call {
        func: Operand,
        args: Vec<Operand>,
        destination: Place,
        target: Option<BasicBlockIdx>,
        unwind: UnwindAction,
    },
    Assert { cond: Operand, expected: bool, msg: AssertMessage, target: BasicBlockIdx, unwind: UnwindAction },
    InlineAsm {
        template: String,
        operands: Vec<InlineAsmOperand>,
        options: String,
        line_spans: String,
        destination: Option<BasicBlockIdx>,
        unwind: UnwindAction,
    },
}

/// The blocks that control may go to from an unwind action.
pub open spec fn unwind_targets(u: UnwindAction) -> Seq<BasicBlockIdx> {
    match u {
        UnwindAction::Cleanup(b) => seq![b],
        _ => Seq::empty(),
    }
}

/// The blocks that control may go to after a terminator, in order.
pub open spec fn successors_spec(k: TerminatorKind) -> Seq<BasicBlockIdx> {
    match k {
        TerminatorKind::Goto { target } => seq![target],
        TerminatorKind::SwitchInt { targets, .. } => targets.branches@.map_values(|p: (u128, BasicBlockIdx)| p.1).push(
            targets.otherwise,
        ),
        TerminatorKind::Drop { target, unwind, .. } => seq![target] + unwind_targets(unwind),
        TerminatorKind::Call { target, unwind, .. } => (match target {
            Some(t) => seq![t],
            None => Seq::empty(),
        }) + unwind_targets(unwind),
        TerminatorKind::Assert { target, unwind, .. } => seq![target] + unwind_targets(unwind),
        TerminatorKind::InlineAsm { destination, unwind, .. } => (match destination {
            Some(t) => seq![t],
            None => Seq::empty(),
        }) + unwind_targets(unwind),
        _ => Seq::empty(),
    }
}

fn push_unwind(v: &mut Vec<BasicBlockIdx>, u: &UnwindAction)
    ensures
        final(v)@ == old(v)@ + unwind_targets(*u),
{
    if let UnwindAction::Cleanup(b) = u {
        v.push(*b);
    }
    assert(v@ =~= old(v)@ + unwind_targets(*u));
}

impl Terminator {
    /// The blocks that control may go to after this terminator: jump, switch and return
    /// targets first, then the cleanup block where unwinding goes to one.
    pub fn successors(&self) -> (r: Vec<BasicBlockIdx>)
        ensures
            r@ == successors_spec(self.kind),
    {
        let mut v: Vec<BasicBlockIdx> = Vec::new();
        match &self.kind {
            TerminatorKind::Goto { target } => {
                v.push(*target);
            },
            TerminatorKind::SwitchInt { targets, .. } => {
                let mut i: usize = 0;
                while i < targets.branches.len()
                    invariant
                        i <= targets.branches@.len(),
                        v@ == targets.branches@.subrange(0, i as int).map_values(|p: (u128, BasicBlockIdx)| p.1),
                    decreases targets.branches@.len() - i,
                {
                    v.push(targets.branches[i].1);
                    proof {
                        assert(targets.branches@.subrange(0, i + 1).map_values(|p: (u128, BasicBlockIdx)| p.1)
                            =~= targets.branches@.subrange(0, i as int).map_values(|p: (u128, BasicBlockIdx)| p.1).push(
                            targets.branches@[i as int].1,
                        ));
                    }
                    i = i + 1;
                }
                assert(targets.branches@.subrange(0, targets.branches@.len() as int) =~= targets.branches@);
                v.push(targets.otherwise);
            },
            TerminatorKind::Drop { target, unwind, .. } => {
                v.push(*target);
                push_unwind(&mut v, unwind);
            },
            TerminatorKind::Call { target, unwind, .. } => {
                if let Some(t) = target {
                    v.push(*t);
                }
                push_unwind(&mut v, unwind);
            },
            TerminatorKind::Assert { target, unwind, .. } => {
                v.push(*target);
                push_unwind(&mut v, unwind);
            },
            TerminatorKind::InlineAsm { destination, unwind, .. } => {
                if let Some(t) = destination {
                    v.push(*t);
                }
                push_unwind(&mut v, unwind);
            },
            _ => {},
        }
        proof {
            assert(v@ =~= successors_spec(self.kind));
        }
        v
    }
}

/// The targets of a switch: a block for each listed value, and one for the rest.
#[derive(Debug, Clone)]
pub struct SwitchTargets {
    pub branches: Vec<(u128, BasicBlockIdx)>,
    pub otherwise: BasicBlockIdx,
}

/// What happens on unwinding.
#[derive(Debug, Clone, PartialEq, Eq, Structural)]
pub enum UnwindAction {
    Continue,
    Cleanup(BasicBlockIdx),
    Terminate,
}

/// The message of a failed assertion.
#[derive(Debug, Clone)]
pub enum AssertMessage {
    BoundsCheck { len: Operand, index: Operand },
    Overflow(OpKind, Operand, Operand),
    DivisionByZero(Operand),
    RemainderByZero(Operand),
    Message(String),
}

/// The operation of an overflow check.
#[derive(Debug, Clone, Copy, PartialEq, Eq, Structural)]
pub enum OpKind {
    Add,
    Sub,
    Mul,
    Div,
    Rem,
    BitAnd,
    BitOr,
    BitXor,
    Shl,
    Shr,
}

/// An operand of inline assembly.
#[derive(Debug, Clone)]
pub struct InlineAsmOperand {
    pub in_out: bool,
    pub reg: String,
    pub value: Option<Operand>,
}

} // verus!
