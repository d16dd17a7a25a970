//! Lexing and loop resolution: one left-to-right pass over the source bytes
//! that maps each of the six executable symbols to its instruction and
//! resolves matching bracket pairs into direct jump-target indices.

use vstd::prelude::*;

use crate::token::BrainToken;
use crate::token::well_formed;

verus! {

/// Source symbols, as bytes: `+ - < > , . [ ]`.
pub const SYM_ADD: u8 = 43;

pub const SYM_SUB: u8 = 45;

pub const SYM_LEFT: u8 = 60;

pub const SYM_RIGHT: u8 = 62;

pub const SYM_READ: u8 = 44;

pub const SYM_WRITE: u8 = 46;

pub const SYM_OPEN: u8 = 91;

pub const SYM_CLOSE: u8 = 93;

/// A structural error of the source text, detected during lexing.
#[derive(Clone, Copy, Debug, PartialEq, Eq, Structural)]
pub enum LexError {
    /// A `]` appeared with no `[` still open before it.
    UnmatchedClose,
    /// A `[` was still open when the source ended.
    UnmatchedOpen,
}

/// Running bracket balance of the first `i` bytes of `s`: the number of `[`
/// minus the number of `]` among them.
pub open spec fn bal(s: Seq<u8>, i: int) -> int
    decreases i,
{
    if i <= 0 {
        0
    } else {
        bal(s, i - 1) + if s[i - 1] == SYM_OPEN {
            1int
        } else if s[i - 1] == SYM_CLOSE {
            -1int
        } else {
            0int
        }
    }
}

/// The brackets of `s` are balanced: no prefix closes more than it has
/// opened, and the whole text closes everything it opens.
pub open spec fn balanced(s: Seq<u8>) -> bool {
    &&& forall|j: int| 0 <= j <= s.len() ==> #[trigger] bal(s, j) >= 0
    &&& bal(s, s.len() as int) == 0
}

/// One pass of the lexer from position `i`, with the instructions built so
/// far in `toks` and the positions of the still-open brackets in `opens`.
pub open spec fn lex_rec(
    s: Seq<u8>,
    i: int,
    toks: Seq<BrainToken>,
    opens: Seq<usize>,
) -> Result<Seq<BrainToken>, LexError>
    decreases s.len() - i,
{
    if i < 0 || i >= s.len() {
        if opens.len() > 0 {
            Err(LexError::UnmatchedOpen)
        } else {
            Ok(toks)
        }
    } else {
        let c = s[i];
        if c == SYM_ADD {
            lex_rec(s, i + 1, toks.push(BrainToken::Add), opens)
        } else if c == SYM_SUB {
            lex_rec(s, i + 1, toks.push(BrainToken::Subtract), opens)
        } else if c == SYM_LEFT {
            lex_rec(s, i + 1, toks.push(BrainToken::Left), opens)
        } else if c == SYM_RIGHT {
            lex_rec(s, i + 1, toks.push(BrainToken::Right), opens)
        } else if c == SYM_READ {
            lex_rec(s, i + 1, toks.push(BrainToken::Read), opens)
        } else if c == SYM_WRITE {
            lex_rec(s, i + 1, toks.push(BrainToken::Write), opens)
        } else if c == SYM_OPEN {
            lex_rec(s, i + 1, toks.push(BrainToken::Nop), opens.push(toks.len() as usize))
        } else if c == SYM_CLOSE {
            if opens.len() == 0 {
                Err(LexError::UnmatchedClose)
            } else {
                let o = opens.last();
                lex_rec(
                    s,
                    i + 1,
                    toks.update(o as int, BrainToken::OpenLoop(toks.len() as usize)).push(
                        BrainToken::CloseLoop(o),
                    ),
                    opens.drop_last(),
                )
            }
        } else {
            lex_rec(s, i + 1, toks, opens)
        }
    }
}

/// What `lex` returns on source bytes `s`.
pub open spec fn lex_spec(s: Seq<u8>) -> Result<Seq<BrainToken>, LexError> {
    lex_rec(s, 0, Seq::empty(), Seq::empty())
}

/// Mid-pass shape of the lexer state: every still-open bracket position holds
/// the `Nop` placeholder, every `Nop` is a still-open bracket position, the
/// open positions grow strictly, and all already-matched pairs are mutually
/// referential.
spec fn lex_inv(toks: Seq<BrainToken>, opens: Seq<usize>) -> bool {
    &&& forall|k: int|
        0 <= k < opens.len() ==> (#[trigger] opens[k]) < toks.len() && toks[opens[k] as int]
            == BrainToken::Nop
    &&& forall|k1: int, k2: int| 0 <= k1 < k2 < opens.len() ==> opens[k1] < opens[k2]
    &&& forall|p: int|
        0 <= p < toks.len() && (#[trigger] toks[p]) == BrainToken::Nop ==> opens.contains(
            p as usize,
        )
    &&& well_formed(toks)
}

/// Induction over `lex_rec`: from any state of the invariant whose open-stack
/// depth equals the running balance, the pass returns a fully resolved,
/// mutually referential sequence exactly when the remaining text keeps the
/// balance nonnegative and ends at zero, and otherwise fails with the error
/// that names the side that went wrong.
proof fn lemma_lex_rec_props(s: Seq<u8>, i: int, toks: Seq<BrainToken>, opens: Seq<usize>)
    requires
        0 <= i <= s.len(),
        toks.len() + s.len() - i <= usize::MAX,
        lex_inv(toks, opens),
        opens.len() == bal(s, i),
        forall|j: int| 0 <= j <= i ==> #[trigger] bal(s, j) >= 0,
    ensures
        match lex_rec(s, i, toks, opens) {
            Ok(t) => {
                &&& well_formed(t)
                &&& forall|p: int| 0 <= p < t.len() ==> t[p] != BrainToken::Nop
                &&& forall|j: int| 0 <= j <= s.len() ==> #[trigger] bal(s, j) >= 0
                &&& bal(s, s.len() as int) == 0
            },
            Err(e) => {
                &&& (e == LexError::UnmatchedClose <==> exists|j: int|
                    0 <= j <= s.len() && #[trigger] bal(s, j) < 0)
                &&& (e == LexError::UnmatchedOpen ==> bal(s, s.len() as int) > 0)
            },
        },
    decreases s.len() - i,
{
    if i == s.len() {
        if opens.len() > 0 {
            // UnmatchedOpen: the balance never went negative and ends positive.
            assert(bal(s, s.len() as int) > 0);
        } else {
            // Ok: the open-stack is empty, so no position still holds a placeholder.
            assert(forall|p: int| 0 <= p < toks.len() ==> (#[trigger] toks[p]) != BrainToken::Nop);
        }
    } else {
        let c = s[i];
        assert(bal(s, i + 1) == bal(s, i) + if c == SYM_OPEN {
            1int
        } else if c == SYM_CLOSE {
            -1int
        } else {
            0int
        });
        if c == SYM_ADD || c == SYM_SUB || c == SYM_LEFT || c == SYM_RIGHT || c == SYM_READ || c == SYM_WRITE {
            let tok = if c == SYM_ADD {
                BrainToken::Add
            } else if c == SYM_SUB {
                BrainToken::Subtract
            } else if c == SYM_LEFT {
                BrainToken::Left
            } else if c == SYM_RIGHT {
                BrainToken::Right
            } else if c == SYM_READ {
                BrainToken::Read
            } else {
                BrainToken::Write
            };
            let toks2 = toks.push(tok);
            assert forall|p: int|
                0 <= p < toks2.len() && (#[trigger] toks2[p]) == BrainToken::Nop implies
                opens.contains(p as usize) by {
                assert(toks2[p] == toks[p]);
            }
            lemma_lex_rec_props(s, i + 1, toks2, opens);
        } else if c == SYM_OPEN {
            let toks2 = toks.push(BrainToken::Nop);
            let opens2 = opens.push(toks.len() as usize);
            assert forall|p: int|
                0 <= p < toks2.len() && (#[trigger] toks2[p]) == BrainToken::Nop implies
                opens2.contains(p as usize) by {
                if p < toks.len() {
                    assert(toks[p] == BrainToken::Nop);
                    let k = choose|k: int| 0 <= k < opens.len() && opens[k] == p as usize;
                    assert(opens2[k] == p as usize);
                } else {
                    assert(opens2[opens.len() as int] == p as usize);
                }
            }
            assert forall|k: int|
                0 <= k < opens2.len() implies (#[trigger] opens2[k]) < toks2.len()
                && toks2[opens2[k] as int] == BrainToken::Nop by {
                if k < opens.len() {
                    assert(opens2[k] == opens[k]);
                    assert(toks2[opens[k] as int] == toks[opens[k] as int]);
                } else {
                    assert(opens2[k] == toks.len() as usize);
                }
            }
            assert forall|p: int|
                0 <= p < toks2.len() implies ((#[trigger] toks2[p]) matches BrainToken::OpenLoop(t)
                ==> p < t < toks2.len() && toks2[t as int] == BrainToken::CloseLoop(p as usize)) by {
                if p < toks.len() {
                    assert(toks2[p] == toks[p]);
                }
            }
            assert forall|p: int|
                0 <= p < toks2.len() implies ((#[trigger] toks2[p]) matches BrainToken::CloseLoop(t)
                ==> 0 <= t < p && toks2[t as int] == BrainToken::OpenLoop(p as usize)) by {
                if p < toks.len() {
                    assert(toks2[p] == toks[p]);
                }
            }
            lemma_lex_rec_props(s, i + 1, toks2, opens2);
        } else if c == SYM_CLOSE {
            if opens.len() == 0 {
                assert(bal(s, i + 1) < 0);
            } else {
                let o = opens.last();
                let close = toks.len() as usize;
                let toks2 = toks.update(o as int, BrainToken::OpenLoop(close)).push(
                    BrainToken::CloseLoop(o),
                );
                let opens2 = opens.drop_last();
                assert(toks[o as int] == BrainToken::Nop);
                // The freshly matched pair is mutually referential, and the
                // overwrite touches only a placeholder, so no old pair moves.
                assert(toks2[o as int] == BrainToken::OpenLoop(close));
                assert(toks2[close as int] == BrainToken::CloseLoop(o));
                assert forall|p: int|
                    0 <= p < toks2.len() implies ((#[trigger] toks2[p]) matches
                BrainToken::OpenLoop(t) ==> p < t < toks2.len() && toks2[t as int]
                    == BrainToken::CloseLoop(p as usize)) by {
                    if p != o && p < toks.len() {
                        assert(toks2[p] == toks[p]);
                    }
                }
                assert forall|p: int|
                    0 <= p < toks2.len() implies ((#[trigger] toks2[p]) matches
                BrainToken::CloseLoop(t) ==> 0 <= t < p && toks2[t as int] == BrainToken::OpenLoop(
                    p as usize,
                )) by {
                    if p != o && p < toks.len() {
                        assert(toks2[p] == toks[p]);
                    }
                }
                assert forall|p: int|
                    0 <= p < toks2.len() && (#[trigger] toks2[p]) == BrainToken::Nop implies
                    opens2.contains(p as usize) by {
                    assert(p != o && p < toks.len());
                    assert(toks[p] == BrainToken::Nop);
                    let k = choose|k: int| 0 <= k < opens.len() && opens[k] == p as usize;
                    assert(k < opens.len() - 1);
                    assert(opens2[k] == p as usize);
                }
                assert forall|k: int|
                    0 <= k < opens2.len() implies (#[trigger] opens2[k]) < toks2.len()
                    && toks2[opens2[k] as int] == BrainToken::Nop by {
                    assert(opens2[k] == opens[k]);
                    assert(opens[k] != o);
                }
                lemma_lex_rec_props(s, i + 1, toks2, opens2);
            }
        } else {
            lemma_lex_rec_props(s, i + 1, toks, opens);
        }
    }
}

/// Round-trip pairing: whenever lexing succeeds, every `OpenLoop(t)` at index
/// `i` has `CloseLoop(i)` at index `t` and vice versa, and no placeholder is
/// left in the sequence.
pub proof fn lemma_lex_pairs(s: Seq<u8>)
    requires
        s.len() <= usize::MAX,
    ensures
        lex_spec(s) matches Ok(t) ==> well_formed(t) && (forall|p: int|
            0 <= p < t.len() ==> t[p] != BrainToken::Nop),
{
    lemma_lex_rec_props(s, 0, Seq::empty(), Seq::empty());
}

/// Lexing succeeds exactly on the source texts whose brackets are balanced.
pub proof fn lemma_lex_ok_iff_balanced(s: Seq<u8>)
    requires
        s.len() <= usize::MAX,
    ensures
        lex_spec(s) is Ok <==> balanced(s),
{
    lemma_lex_rec_props(s, 0, Seq::empty(), Seq::empty());
    if balanced(s) {
        match lex_spec(s) {
            Ok(_) => {},
            Err(e) => {
                // Either error contradicts a balanced text: a negative prefix
                // for a stray close, a positive final balance for a stray open.
                assert(bal(s, s.len() as int) >= 0);
                assert(false);
            },
        }
    }
}

/// Converts source text into the instruction sequence, resolving each bracket
/// pair into mutually referential jump targets; every byte other than the six
/// executable symbols and the two brackets is skipped. Fails exactly on
/// unbalanced brackets: `UnmatchedClose` when some prefix closes more
/// brackets than it opened, `UnmatchedOpen` when the whole text leaves one
/// open.
#[verifier::loop_isolation(false)]
pub fn lex(src: &[u8]) -> (r: Result<Vec<BrainToken>, LexError>)
    ensures
        match r {
            Ok(toks) => {
                &&& lex_spec(src@) == Ok::<Seq<BrainToken>, LexError>(toks@)
                &&& well_formed(toks@)
                &&& forall|p: int| 0 <= p < toks@.len() ==> toks@[p] != BrainToken::Nop
                &&& balanced(src@)
            },
            Err(e) => {
                &&& lex_spec(src@) == Err::<Seq<BrainToken>, LexError>(e)
                &&& !balanced(src@)
                &&& (e == LexError::UnmatchedClose <==> exists|j: int|
                    0 <= j <= src@.len() && #[trigger] bal(src@, j) < 0)
                &&& (e == LexError::UnmatchedOpen <==> (forall|j: int|
                    0 <= j <= src@.len() ==> #[trigger] bal(src@, j) >= 0) && bal(
                    src@,
                    src@.len() as int,
                ) != 0)
            },
        },
{
    let n = src.len();
    proof {
        lemma_lex_rec_props(src@, 0, Seq::empty(), Seq::empty());
    }
    let mut tokens: Vec<BrainToken> = Vec::new();
    let mut opens: Vec<usize> = Vec::new();
    let mut i: usize = 0;
    while i < n
        invariant
            i <= src.len(),
            lex_rec(src@, i as int, tokens@, opens@) == lex_spec(src@),
            forall|k: int| 0 <= k < opens@.len() ==> (#[trigger] opens@[k]) < tokens@.len(),
        decreases src.len() - i,
    {
        let c = src[i];
        if c == SYM_ADD {
            tokens.push(BrainToken::Add);
        } else if c == SYM_SUB {
            tokens.push(BrainToken::Subtract);
        } else if c == SYM_LEFT {
            tokens.push(BrainToken::Left);
        } else if c == SYM_RIGHT {
            tokens.push(BrainToken::Right);
        } else if c == SYM_READ {
            tokens.push(BrainToken::Read);
        } else if c == SYM_WRITE {
            tokens.push(BrainToken::Write);
        } else if c == SYM_OPEN {
            opens.push(tokens.len());
            tokens.push(BrainToken::Nop);
        } else if c == SYM_CLOSE {
            match opens.pop() {
                None => {
                    return Err(LexError::UnmatchedClose);
                },
                Some(open) => {
                    let close = tokens.len();
                    tokens[open] = BrainToken::OpenLoop(close);
                    tokens.push(BrainToken::CloseLoop(open));
                },
            }
        }
        i = i + 1;
    }
    if opens.len() > 0 {
        Err(LexError::UnmatchedOpen)
    } else {
        Ok(tokens)
    }
}

} // verus!
