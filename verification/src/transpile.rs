//! Rendering an instruction sequence as Rust source text: a standalone
//! translation unit whose `main`, when compiled and executed, reproduces the
//! interpreter's observable behavior — same tape size, same wraparound
//! arithmetic, same per-write flush, same blocking single-byte reads.

use vstd::prelude::*;
use vstd::string::StringExecFns;

use crate::token::BrainToken;

verus! {

/// The fixed statement template one instruction renders to. The jump target
/// carried on a bracket is unused here: the emitted `while` construct itself
/// encodes the jump back, and a `Nop` emits nothing.
pub open spec fn token_text(t: BrainToken) -> Seq<char> {
    match t {
        BrainToken::Add => "    tape[ptr] = tape[ptr].wrapping_add(1);\n"@,
        BrainToken::Subtract => "    tape[ptr] = tape[ptr].wrapping_sub(1);\n"@,
        BrainToken::Left => "    ptr -= 1;\n"@,
        BrainToken::Right => "    ptr += 1;\n"@,
        BrainToken::Read => "    std::io::stdin().read_exact(&mut byte).expect(\"error reading input\");\n    tape[ptr] = byte[0];\n"@,
        BrainToken::Write => "    byte[0] = tape[ptr];\n    std::io::stdout().write_all(&byte).expect(\"error writing output\");\n    std::io::stdout().flush().expect(\"error flushing output\");\n"@,
        BrainToken::OpenLoop(_) => "    while tape[ptr] != 0 {\n"@,
        BrainToken::CloseLoop(_) => "    }\n"@,
        BrainToken::Nop => Seq::empty(),
    }
}

/// The fixed prologue: entry point, imports, the zeroed tape of `TAPE_SIZE`
/// cells, the pointer, and the one-byte I/O buffer.
pub open spec fn prologue_text() -> Seq<char> {
    "fn main() {\n    use std::io::{Read, Write};\n    let mut tape = [0u8; 30000];\n    let mut ptr: usize = 0;\n    let mut byte = [0u8; 1];\n"@
}

/// The fixed epilogue that closes the entry-point function.
pub open spec fn epilogue_text() -> Seq<char> {
    "}\n"@
}

/// The statement templates of the instructions, concatenated in order.
pub open spec fn render_body(toks: Seq<BrainToken>) -> Seq<char>
    decreases toks.len(),
{
    if toks.len() == 0 {
        Seq::empty()
    } else {
        render_body(toks.drop_last()) + token_text(toks.last())
    }
}

/// The whole translation unit `compile` emits for `toks`.
pub open spec fn render_spec(toks: Seq<BrainToken>) -> Seq<char> {
    prologue_text() + render_body(toks) + epilogue_text()
}

proof fn lemma_render_body_push(toks: Seq<BrainToken>, t: BrainToken)
    ensures
        render_body(toks.push(t)) == render_body(toks) + token_text(t),
{
    assert(toks.push(t).drop_last() =~= toks);
    assert(toks.push(t).last() == t);
}

/// Transpiling the same instruction sequence twice yields identical text:
/// the rendering is a function of the sequence alone.
pub proof fn lemma_transpile_deterministic(t1: Seq<BrainToken>, t2: Seq<BrainToken>)
    requires
        t1 == t2,
    ensures
        render_spec(t1) == render_spec(t2),
{
}

/// Renders the instruction sequence as Rust source text: the fixed prologue,
/// one fixed statement template per instruction in sequence order, and the
/// fixed epilogue.
#[verifier::loop_isolation(false)]
pub fn compile(tokens: Vec<BrainToken>) -> (r: String)
    ensures
        r@ == render_spec(tokens@),
{
    let mut code = String::new();
    code.append(
        "fn main() {\n    use std::io::{Read, Write};\n    let mut tape = [0u8; 30000];\n    let mut ptr: usize = 0;\n    let mut byte = [0u8; 1];\n",
    );
    let mut i: usize = 0;
    while i < tokens.len()
        invariant
            i <= tokens.len(),
            code@ == prologue_text() + render_body(tokens@.take(i as int)),
        decreases tokens.len() - i,
    {
        match tokens[i] {
            BrainToken::Add => code.append("    tape[ptr] = tape[ptr].wrapping_add(1);\n"),
            BrainToken::Subtract => code.append("    tape[ptr] = tape[ptr].wrapping_sub(1);\n"),
            BrainToken::Left => code.append("    ptr -= 1;\n"),
            BrainToken::Right => code.append("    ptr += 1;\n"),
            BrainToken::Read => code.append(
                "    std::io::stdin().read_exact(&mut byte).expect(\"error reading input\");\n    tape[ptr] = byte[0];\n",
            ),
            BrainToken::Write => code.append(
                "    byte[0] = tape[ptr];\n    std::io::stdout().write_all(&byte).expect(\"error writing output\");\n    std::io::stdout().flush().expect(\"error flushing output\");\n",
            ),
            BrainToken::OpenLoop(_) => code.append("    while tape[ptr] != 0 {\n"),
            BrainToken::CloseLoop(_) => code.append("    }\n"),
            BrainToken::Nop => {},
        }
        proof {
            assert(tokens@.take(i as int + 1) =~= tokens@.take(i as int).push(tokens@[i as int]));
            lemma_render_body_push(tokens@.take(i as int), tokens@[i as int]);
            assert(code@ =~= prologue_text() + render_body(tokens@.take(i as int + 1)));
        }
        i = i + 1;
    }
    proof {
        assert(tokens@.take(tokens@.len() as int) =~= tokens@);
    }
    code.append("}\n");
    proof {
        assert(code@ =~= render_spec(tokens@));
    }
    code
}

} // verus!
