//! The shared instruction representation consumed by both the interpreter
//! and the transpiler.

use vstd::prelude::*;

verus! {

/// Number of cells on the tape.
pub const TAPE_SIZE: usize = 30000;

/// One instruction of the language, produced in source order by the lexer.
///
/// `OpenLoop(t)` is a conditional forward jump whose `t` is the index, in the
/// instruction sequence, of its matching `CloseLoop`; `CloseLoop(t)` is the
/// conditional backward jump whose `t` is the index of its matching
/// `OpenLoop`. `Nop` is the placeholder written at the position of an opening
/// bracket before its match is known; a fully resolved sequence contains none.
#[derive(Clone, Copy, Debug, PartialEq, Eq, Structural)]
pub enum BrainToken {
    Add,
    Subtract,
    Left,
    Right,
    Read,
    Write,
    OpenLoop(usize),
    CloseLoop(usize),
    Nop,
}

/// Every `OpenLoop` and its `CloseLoop` are mutually referential: the jump
/// targets stay inside the sequence and point back at each other.
pub open spec fn well_formed(toks: Seq<BrainToken>) -> bool {
    &&& forall|i: int|
        0 <= i < toks.len() ==> ((#[trigger] toks[i]) matches BrainToken::OpenLoop(t)
            ==> i < t < toks.len() && toks[t as int] == BrainToken::CloseLoop(i as usize))
    &&& forall|i: int|
        0 <= i < toks.len() ==> ((#[trigger] toks[i]) matches BrainToken::CloseLoop(t)
            ==> 0 <= t < i && toks[t as int] == BrainToken::OpenLoop(i as usize))
}

} // verus!
