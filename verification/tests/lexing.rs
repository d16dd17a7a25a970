use brainrust::BrainToken;
use brainrust::LexError;
use brainrust::lex;

#[test]
fn lex_maps_each_symbol() {
    let toks = lex(b"+-<>,.").unwrap();
    assert_eq!(
        toks,
        vec![
            BrainToken::Add,
            BrainToken::Subtract,
            BrainToken::Left,
            BrainToken::Right,
            BrainToken::Read,
            BrainToken::Write,
        ]
    );
}

#[test]
fn lex_skips_other_bytes() {
    let toks = lex(b"a + b .\n").unwrap();
    assert_eq!(toks, vec![BrainToken::Add, BrainToken::Write]);
}

#[test]
fn lex_empty_source() {
    assert_eq!(lex(b"").unwrap(), vec![]);
}

#[test]
fn lex_resolves_nested_pairs() {
    let toks = lex(b"[[]]").unwrap();
    assert_eq!(
        toks,
        vec![
            BrainToken::OpenLoop(3),
            BrainToken::OpenLoop(2),
            BrainToken::CloseLoop(1),
            BrainToken::CloseLoop(0),
        ]
    );
}

#[test]
fn lex_resolves_simple_loop() {
    let toks = lex(b"+[-]").unwrap();
    assert_eq!(
        toks,
        vec![
            BrainToken::Add,
            BrainToken::OpenLoop(3),
            BrainToken::Subtract,
            BrainToken::CloseLoop(1),
        ]
    );
}

#[test]
fn lex_pairing_is_mutual() {
    let toks = lex(b"[[]][][[][]]").unwrap();
    for (i, t) in toks.iter().enumerate() {
        match t {
            BrainToken::OpenLoop(c) => assert_eq!(toks[*c], BrainToken::CloseLoop(i)),
            BrainToken::CloseLoop(o) => assert_eq!(toks[*o], BrainToken::OpenLoop(i)),
            _ => panic!("unexpected token"),
        }
    }
}

#[test]
fn lex_rejects_stray_close() {
    assert_eq!(lex(b"]"), Err(LexError::UnmatchedClose));
    assert_eq!(lex(b"]["), Err(LexError::UnmatchedClose));
    assert_eq!(lex(b"+[-]]"), Err(LexError::UnmatchedClose));
}

#[test]
fn lex_rejects_stray_open() {
    assert_eq!(lex(b"["), Err(LexError::UnmatchedOpen));
    assert_eq!(lex(b"a[b"), Err(LexError::UnmatchedOpen));
    assert_eq!(lex(b"[[]"), Err(LexError::UnmatchedOpen));
}
