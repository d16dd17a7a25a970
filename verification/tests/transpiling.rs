use brainrust::BrainToken;
use brainrust::compile;
use brainrust::lex;

const PROLOGUE: &str = "fn main() {\n    use std::io::{Read, Write};\n    let mut tape = [0u8; 30000];\n    let mut ptr: usize = 0;\n    let mut byte = [0u8; 1];\n";

const EPILOGUE: &str = "}\n";

#[test]
fn empty_sequence_is_prologue_and_epilogue() {
    let text = compile(vec![]);
    assert_eq!(text, format!("{}{}", PROLOGUE, EPILOGUE));
}

#[test]
fn one_statement_per_instruction() {
    let text = compile(lex(b"+.").unwrap());
    let expected = format!(
        "{}{}{}{}",
        PROLOGUE,
        "    tape[ptr] = tape[ptr].wrapping_add(1);\n",
        "    byte[0] = tape[ptr];\n    std::io::stdout().write_all(&byte).expect(\"error writing output\");\n    std::io::stdout().flush().expect(\"error flushing output\");\n",
        EPILOGUE,
    );
    assert_eq!(text, expected);
}

#[test]
fn loop_renders_as_while_construct() {
    let text = compile(lex(b"[-]").unwrap());
    let expected = format!(
        "{}{}{}{}{}",
        PROLOGUE,
        "    while tape[ptr] != 0 {\n",
        "    tape[ptr] = tape[ptr].wrapping_sub(1);\n",
        "    }\n",
        EPILOGUE,
    );
    assert_eq!(text, expected);
}

#[test]
fn moves_and_reads_render() {
    let text = compile(lex(b"><,").unwrap());
    let expected = format!(
        "{}{}{}{}{}",
        PROLOGUE,
        "    ptr += 1;\n",
        "    ptr -= 1;\n",
        "    std::io::stdin().read_exact(&mut byte).expect(\"error reading input\");\n    tape[ptr] = byte[0];\n",
        EPILOGUE,
    );
    assert_eq!(text, expected);
}

#[test]
fn nop_emits_nothing() {
    let text = compile(vec![BrainToken::Nop, BrainToken::Add, BrainToken::Nop]);
    let expected = format!("{}{}{}", PROLOGUE, "    tape[ptr] = tape[ptr].wrapping_add(1);\n", EPILOGUE);
    assert_eq!(text, expected);
}

#[test]
fn transpiling_twice_is_byte_identical() {
    let toks = lex(b"+[>+<-]>.").unwrap();
    let first = compile(toks.clone());
    let second = compile(toks);
    assert_eq!(first.into_bytes(), second.into_bytes());
}
