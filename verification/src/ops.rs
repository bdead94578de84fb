//! The instruction alphabet and the decoded operation type.

use vstd::prelude::*;

verus! {

/// The eight instruction kinds, as a closed tagged variant: dispatch
/// never depends on character-code values.
#[derive(Clone, Copy, Debug, PartialEq, Eq, Structural)]
pub enum OpKind {
    Inc,
    Dec,
    Right,
    Left,
    Out,
    In,
    LoopStart,
    LoopEnd,
}

/// A decoded operation: a kind together with a non-negative operand.
/// For arithmetic, movement and I/O kinds the operand is a repeat
/// count; for the two loop kinds it is a placeholder until jump
/// resolution, and afterwards the index of the matching bracket
/// operation.
#[derive(Clone, Copy, Debug, PartialEq, Eq, Structural)]
pub struct Op {
    pub kind: OpKind,
    pub operand: usize,
}

/// Whether a character belongs to the eight-symbol instruction alphabet.
pub open spec fn is_symbol(c: char) -> bool {
    c == '+' || c == '-' || c == '>' || c == '<' || c == '.' || c == ',' || c == '[' || c == ']'
}

/// The instruction kind that an alphabet symbol stands for.
pub open spec fn symbol_kind(c: char) -> OpKind
    recommends
        is_symbol(c),
{
    if c == '+' {
        OpKind::Inc
    } else if c == '-' {
        OpKind::Dec
    } else if c == '>' {
        OpKind::Right
    } else if c == '<' {
        OpKind::Left
    } else if c == '.' {
        OpKind::Out
    } else if c == ',' {
        OpKind::In
    } else if c == '[' {
        OpKind::LoopStart
    } else {
        OpKind::LoopEnd
    }
}

/// Whether a kind is one of the two loop brackets.
pub open spec fn is_loop_kind(k: OpKind) -> bool {
    k == OpKind::LoopStart || k == OpKind::LoopEnd
}

impl OpKind {
    /// Classify one character: the kind it encodes, or an error for a
    /// character outside the alphabet.
    pub fn from_char(c: char) -> (r: Result<OpKind, ()>)
        ensures
            r is Ok <==> is_symbol(c),
            r is Ok ==> r->Ok_0 == symbol_kind(c),
    {
        match c {
            '+' => Ok(OpKind::Inc),
            '-' => Ok(OpKind::Dec),
            '>' => Ok(OpKind::Right),
            '<' => Ok(OpKind::Left),
            '.' => Ok(OpKind::Out),
            ',' => Ok(OpKind::In),
            '[' => Ok(OpKind::LoopStart),
            ']' => Ok(OpKind::LoopEnd),
            _ => Err(()),
        }
    }
}

} // verus!
