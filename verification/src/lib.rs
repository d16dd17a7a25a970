//! A verified runtime for a tiny esoteric language that operates on a byte
//! tape: a lexer that resolves loop brackets into jump targets, an
//! interpreter that executes the resulting instruction sequence, and a
//! transpiler that renders it as Rust source text.

mod interp;
mod lexer;
mod token;
mod transpile;

pub use interp::MachineState;
pub use interp::Outcome;
pub use interp::RunError;
pub use interp::StepResult;
pub use interp::init_state;
pub use interp::interp;
pub use interp::lemma_run_deterministic;
pub use interp::run;
pub use interp::step;
pub use interp::wrap_dec;
pub use interp::wrap_inc;
pub use lexer::LexError;
pub use lexer::bal;
pub use lexer::balanced;
pub use lexer::lemma_lex_ok_iff_balanced;
pub use lexer::lemma_lex_pairs;
pub use lexer::lex;
pub use lexer::lex_rec;
pub use lexer::lex_spec;
pub use token::BrainToken;
pub use token::TAPE_SIZE;
pub use token::well_formed;
pub use transpile::compile;
pub use transpile::epilogue_text;
pub use transpile::lemma_transpile_deterministic;
pub use transpile::prologue_text;
pub use transpile::render_body;
pub use transpile::render_spec;
pub use transpile::token_text;
