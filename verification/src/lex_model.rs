use vstd::prelude::*;
use crate::category_code::CategoryCode;
use crate::category_code::cat_raw;
use crate::maybe_char::MaybeChar;
use crate::token::TokenKind;

verus! {

/// The category a table map assigns to a character; unassigned
/// characters are `Other`.
pub open spec fn cat_of(m: Map<u32, CategoryCode>, mc: MaybeChar) -> CategoryCode {
    cat_raw(m, mc.spec_raw())
}

/// ASCII hexadecimal digit.
pub open spec fn is_hex_digit(b: u8) -> bool {
    ('0' as u8 <= b && b <= '9' as u8) || ('a' as u8 <= b && b <= 'f' as u8) || ('A' as u8 <= b
        && b <= 'F' as u8)
}

/// Numeric value of an ASCII hexadecimal digit.
pub open spec fn hex_value(b: u8) -> u8 {
    if '0' as u8 <= b && b <= '9' as u8 {
        (b - '0' as u8) as u8
    } else if 'a' as u8 <= b && b <= 'f' as u8 {
        (b - 'a' as u8 + 10) as u8
    } else if 'A' as u8 <= b && b <= 'F' as u8 {
        (b - 'A' as u8 + 10) as u8
    } else {
        0
    }
}

/// The byte denoted by the single-character caret form `^^X`: `X - 64`
/// for `X >= 64`, else `X + 64`.
pub open spec fn caret_decoded(b: u8) -> u8 {
    if b >= 64 {
        (b - 64) as u8
    } else {
        (b + 64) as u8
    }
}

/// The logical character decoder. At a position inside the input it
/// yields the decoded character, the number of input bytes it occupies,
/// and whether decoding transformed the input; past the end it yields
/// nothing. Rules, in order:
/// - `^^` followed by two hexadecimal digits decodes that byte pair
///   (four bytes, transformed); the hex form wins whenever both digits
///   are present.
/// - `^^X` with any third byte decodes to `X` shifted by 64 (three
///   bytes, transformed).
/// - `\r\n` folds to a single `\r` (two bytes, transformed).
/// - Any other byte stands for itself (one byte, untransformed).
pub open spec fn decode_at(input: Seq<u8>, pos: int) -> Option<(MaybeChar, int, bool)> {
    if !(0 <= pos < input.len()) {
        None
    } else {
        let ch = input[pos];
        if ch == '^' as u8 && pos + 2 < input.len() && input[pos + 1] == '^' as u8 {
            if pos + 3 < input.len() && is_hex_digit(input[pos + 2]) && is_hex_digit(
                input[pos + 3],
            ) {
                Some(
                    (
                        MaybeChar::Char(
                            ((hex_value(input[pos + 2]) * 16 + hex_value(input[pos + 3])) as u8)
                                as char,
                        ),
                        4,
                        true,
                    ),
                )
            } else {
                Some((MaybeChar::Char(caret_decoded(input[pos + 2]) as char), 3, true))
            }
        } else if ch == '\r' as u8 && pos + 1 < input.len() && input[pos + 1] == '\n' as u8 {
            Some((MaybeChar::Char('\r'), 2, true))
        } else {
            Some((MaybeChar::Char(input[pos] as char), 1, false))
        }
    }
}

/// Decoding yields a character exactly inside the input, consuming
/// between one and four bytes, never past the end.
pub proof fn lemma_decode_bounds(input: Seq<u8>, pos: int)
    ensures
        decode_at(input, pos) is Some <==> 0 <= pos < input.len(),
        decode_at(input, pos) matches Some(d) ==> 1 <= d.1 <= 4 && pos + d.1 <= input.len(),
{
}

/// First position at or after `pos` whose decoded character is neither
/// `Space` nor `Ignored` (or the end of input), advancing decoded
/// character by decoded character.
pub open spec fn skip_space_ignored(input: Seq<u8>, m: Map<u32, CategoryCode>, pos: int) -> int
    decreases input.len() - pos,
    when 0 <= pos <= input.len()
{
    match decode_at(input, pos) {
        Some(d) => if cat_of(m, d.0) == CategoryCode::Space || cat_of(m, d.0)
            == CategoryCode::Ignored {
            skip_space_ignored(input, m, pos + d.1)
        } else {
            pos
        },
        None => pos,
    }
}

/// First position at or after `pos` whose decoded character is not
/// `Ignored` (or the end of input).
pub open spec fn skip_ignored(input: Seq<u8>, m: Map<u32, CategoryCode>, pos: int) -> int
    decreases input.len() - pos,
    when 0 <= pos <= input.len()
{
    match decode_at(input, pos) {
        Some(d) => if cat_of(m, d.0) == CategoryCode::Ignored {
            skip_ignored(input, m, pos + d.1)
        } else {
            pos
        },
        None => pos,
    }
}

/// First position at or after `pos` whose decoded character is not
/// `Space` (or the end of input).
pub open spec fn skip_spaces_only(input: Seq<u8>, m: Map<u32, CategoryCode>, pos: int) -> int
    decreases input.len() - pos,
    when 0 <= pos <= input.len()
{
    match decode_at(input, pos) {
        Some(d) => if cat_of(m, d.0) == CategoryCode::Space {
            skip_spaces_only(input, m, pos + d.1)
        } else {
            pos
        },
        None => pos,
    }
}

/// Position just past the current physical line: raw bytes are scanned
/// (without caret decoding) until a literal `\r` or `\n` is consumed,
/// `\r\n` counting as one terminator; at the end of input the scan
/// stops there.
pub open spec fn finish_line_pos(input: Seq<u8>, pos: int) -> int
    decreases input.len() - pos,
    when 0 <= pos <= input.len()
{
    if pos >= input.len() {
        pos
    } else if input[pos] == '\r' as u8 {
        if pos + 1 < input.len() && input[pos + 1] == '\n' as u8 {
            pos + 2
        } else {
            pos + 1
        }
    } else if input[pos] == '\n' as u8 {
        pos + 1
    } else {
        finish_line_pos(input, pos + 1)
    }
}

/// Bounds of the blank-stripping scans.
pub proof fn lemma_skip_bounds(input: Seq<u8>, m: Map<u32, CategoryCode>, pos: int)
    requires
        0 <= pos <= input.len(),
    ensures
        pos <= skip_space_ignored(input, m, pos) <= input.len(),
        pos <= skip_ignored(input, m, pos) <= input.len(),
        pos <= skip_spaces_only(input, m, pos) <= input.len(),
    decreases input.len() - pos,
{
    match decode_at(input, pos) {
        Some(d) => {
            lemma_decode_bounds(input, pos);
            lemma_skip_bounds(input, m, pos + d.1);
        },
        None => {},
    }
}

/// The stripping scans stop only where no further character of the
/// stripped categories stands: at the stop position of
/// `skip_ignored` the decoded character, if any, is not `Ignored`.
pub proof fn lemma_skip_ignored_stops(input: Seq<u8>, m: Map<u32, CategoryCode>, pos: int)
    requires
        0 <= pos <= input.len(),
    ensures
        decode_at(input, skip_ignored(input, m, pos)) matches Some(dd) ==> cat_of(m, dd.0)
            != CategoryCode::Ignored,
    decreases input.len() - pos,
{
    match decode_at(input, pos) {
        Some(d) => {
            lemma_decode_bounds(input, pos);
            if cat_of(m, d.0) == CategoryCode::Ignored {
                lemma_skip_ignored_stops(input, m, pos + d.1);
            }
        },
        None => {},
    }
}

/// Bounds of the raw line scan: it stays inside the input and always
/// consumes at least one byte when any remain.
pub proof fn lemma_finish_line_bounds(input: Seq<u8>, pos: int)
    requires
        0 <= pos <= input.len(),
    ensures
        pos <= finish_line_pos(input, pos) <= input.len(),
        pos < input.len() ==> pos < finish_line_pos(input, pos),
    decreases input.len() - pos,
{
    if pos < input.len() && input[pos] != '\r' as u8 && input[pos] != '\n' as u8 {
        lemma_finish_line_bounds(input, pos + 1);
    }
}

/// End of the run of letters starting at `pos`: the first position
/// whose decoded character is not a `Letter`.
pub open spec fn word_end(input: Seq<u8>, m: Map<u32, CategoryCode>, pos: int) -> int
    decreases input.len() - pos,
    when 0 <= pos <= input.len()
{
    match decode_at(input, pos) {
        Some(d) => if cat_of(m, d.0) == CategoryCode::Letter {
            word_end(input, m, pos + d.1)
        } else {
            pos
        },
        None => pos,
    }
}

/// The decoded byte text of the letter run starting at `pos`: each
/// letter's identifying encoding, concatenated.
pub open spec fn word_decoded(input: Seq<u8>, m: Map<u32, CategoryCode>, pos: int) -> Seq<u8>
    decreases input.len() - pos,
    when 0 <= pos <= input.len()
{
    match decode_at(input, pos) {
        Some(d) => if cat_of(m, d.0) == CategoryCode::Letter {
            d.0.spec_encoding() + word_decoded(input, m, pos + d.1)
        } else {
            Seq::<u8>::empty()
        },
        None => Seq::<u8>::empty(),
    }
}

/// The identifying bytes of the letter run starting at `pos`: raw input
/// bytes up to the first transformed letter, then the decoded encodings
/// of that letter and all letters after it. A run without any
/// transformed letter is exactly the raw input slice it occupies.
pub open spec fn word_name(input: Seq<u8>, m: Map<u32, CategoryCode>, pos: int) -> Seq<u8>
    decreases input.len() - pos,
    when 0 <= pos <= input.len()
{
    match decode_at(input, pos) {
        Some(d) => if cat_of(m, d.0) == CategoryCode::Letter {
            if d.2 {
                word_decoded(input, m, pos)
            } else {
                seq![input[pos]] + word_name(input, m, pos + d.1)
            }
        } else {
            Seq::<u8>::empty()
        },
        None => Seq::<u8>::empty(),
    }
}

/// Bounds of the letter scan.
pub proof fn lemma_word_end_bounds(input: Seq<u8>, m: Map<u32, CategoryCode>, pos: int)
    requires
        0 <= pos <= input.len(),
    ensures
        pos <= word_end(input, m, pos) <= input.len(),
    decreases input.len() - pos,
{
    match decode_at(input, pos) {
        Some(d) => {
            lemma_decode_bounds(input, pos);
            if cat_of(m, d.0) == CategoryCode::Letter {
                lemma_word_end_bounds(input, m, pos + d.1);
            }
        },
        None => {},
    }
}

/// The character payload a `Letter` or `Other` token carries: the
/// scalar value itself, or U+FFFD for a byte that is no scalar value.
pub open spec fn char_payload(mc: MaybeChar) -> char {
    match mc {
        MaybeChar::Char(c) => c,
        MaybeChar::NonCharByte(_) => '\u{FFFD}',
    }
}

/// Lexer state between two tokens: the cursor, whether the next token
/// is the first of its line, and whether blanks are being skipped.
pub struct LexSt {
    pub pos: int,
    pub at_sol: bool,
    pub skip: bool,
}

/// What a token of the stream is, before interning: its kind, whether
/// it is the first of its line, its span, and its payload. A command
/// name appears as its identifying bytes.
pub enum SpecTokData {
    NoData,
    Ch(char),
    ParamIx(Option<u8>),
    Sym(Option<MaybeChar>),
    Name(Seq<u8>),
}

pub struct SpecTok {
    pub kind: TokenKind,
    pub sol: bool,
    pub loc: int,
    pub len: int,
    pub data: SpecTokData,
}

/// Outcome of producing one token: the token and the state left behind.
pub struct LexStep {
    pub tok: SpecTok,
    pub st: LexSt,
}

/// Outcome of the control-sequence path, entered at the escape
/// character sitting at `p2`:
/// - nothing after the escape: a `ControlSymbol` carrying no symbol;
/// - a letter: a `ControlWord` spanning the whole letter run, named by
///   its identifying bytes, leaving the lexer skipping blanks;
/// - any other character: a `ControlSymbol` carrying it, skipping
///   blanks afterwards only for a control space.
pub open spec fn escape_outcome(
    input: Seq<u8>,
    m: Map<u32, CategoryCode>,
    p2: int,
    sz: int,
    sol: bool,
) -> LexStep {
    let p3 = p2 + sz;
    match decode_at(input, p3) {
        None => LexStep {
            tok: SpecTok {
                kind: TokenKind::ControlSymbol,
                sol,
                loc: p2,
                len: p3 - p2,
                data: SpecTokData::Sym(None),
            },
            st: LexSt { pos: p3, at_sol: false, skip: false },
        },
        Some(d2) => {
            if cat_of(m, d2.0) == CategoryCode::Letter {
                let e = word_end(input, m, p3);
                LexStep {
                    tok: SpecTok {
                        kind: TokenKind::ControlWord,
                        sol,
                        loc: p2,
                        len: e - p2,
                        data: SpecTokData::Name(word_name(input, m, p3)),
                    },
                    st: LexSt { pos: e, at_sol: false, skip: true },
                }
            } else {
                LexStep {
                    tok: SpecTok {
                        kind: TokenKind::ControlSymbol,
                        sol,
                        loc: p2,
                        len: p3 + d2.1 - p2,
                        data: SpecTokData::Sym(Some(d2.0)),
                    },
                    st: LexSt {
                        pos: p3 + d2.1,
                        at_sol: false,
                        skip: cat_of(m, d2.0) == CategoryCode::Space,
                    },
                }
            }
        },
    }
}

/// One call of the lexer, as a function of the input bytes, the
/// category table, the incoming state, and the start-of-line flag
/// already accumulated on the outgoing token. Restarting cases
/// (comments, invalid characters, space runs swallowed before an end
/// of line) recurse with the cursor advanced.
pub open spec fn lex_step(
    input: Seq<u8>,
    m: Map<u32, CategoryCode>,
    st: LexSt,
    sol0: bool,
) -> LexStep
    decreases input.len() - st.pos,
    when 0 <= st.pos <= input.len()
{
    let p1 = if st.skip {
        skip_space_ignored(input, m, st.pos)
    } else {
        st.pos
    };
    let p2 = skip_ignored(input, m, p1);
    let sol = sol0 || st.at_sol;
    match decode_at(input, p2) {
        None => LexStep {
            tok: SpecTok {
                kind: TokenKind::Eof,
                sol,
                loc: p2,
                len: 0,
                data: SpecTokData::NoData,
            },
            st: LexSt { pos: p2, at_sol: false, skip: false },
        },
        Some(d) => {
            let cc = cat_of(m, d.0);
            let sz = d.1;
            let p3 = p2 + sz;
            if cc == CategoryCode::Escape {
                escape_outcome(input, m, p2, sz, sol)
            } else if cc == CategoryCode::BeginGroup {
                simple_outcome(TokenKind::BeginGroup, sol, p2, sz)
            } else if cc == CategoryCode::EndGroup {
                simple_outcome(TokenKind::EndGroup, sol, p2, sz)
            } else if cc == CategoryCode::MathShift {
                simple_outcome(TokenKind::MathShift, sol, p2, sz)
            } else if cc == CategoryCode::AlignmentTab {
                simple_outcome(TokenKind::AlignmentTab, sol, p2, sz)
            } else if cc == CategoryCode::EndOfLine {
                let kind = if sol {
                    TokenKind::Paragraph
                } else {
                    TokenKind::Space
                };
                if d.0 == MaybeChar::Char('\r') || d.0 == MaybeChar::Char('\n') {
                    LexStep {
                        tok: SpecTok { kind, sol, loc: p2, len: sz, data: SpecTokData::NoData },
                        st: LexSt { pos: p3, at_sol: true, skip: true },
                    }
                } else {
                    let q = finish_line_pos(input, p3);
                    LexStep {
                        tok: SpecTok { kind, sol, loc: p2, len: sz, data: SpecTokData::NoData },
                        st: LexSt { pos: q, at_sol: q < input.len(), skip: q < input.len() },
                    }
                }
            } else if cc == CategoryCode::Parameter {
                if p3 < input.len() && '1' as u8 <= input[p3] && input[p3] <= '9' as u8 {
                    LexStep {
                        tok: SpecTok {
                            kind: TokenKind::Parameter,
                            sol,
                            loc: p2,
                            len: p3 + 1 - p2,
                            data: SpecTokData::ParamIx(Some((input[p3] - '0' as u8) as u8)),
                        },
                        st: LexSt { pos: p3 + 1, at_sol: false, skip: false },
                    }
                } else {
                    LexStep {
                        tok: SpecTok {
                            kind: TokenKind::Parameter,
                            sol,
                            loc: p2,
                            len: sz,
                            data: SpecTokData::ParamIx(None),
                        },
                        st: LexSt { pos: p3, at_sol: false, skip: false },
                    }
                }
            } else if cc == CategoryCode::Superscript {
                simple_outcome(TokenKind::Superscript, sol, p2, sz)
            } else if cc == CategoryCode::Subscript {
                simple_outcome(TokenKind::Subscript, sol, p2, sz)
            } else if cc == CategoryCode::Space {
                let q = skip_spaces_only(input, m, p3);
                let emit = match decode_at(input, q) {
                    None => false,
                    Some(d2) => cat_of(m, d2.0) != CategoryCode::EndOfLine,
                };
                if emit {
                    LexStep {
                        tok: SpecTok {
                            kind: TokenKind::Space,
                            sol,
                            loc: p2,
                            len: sz,
                            data: SpecTokData::NoData,
                        },
                        st: LexSt { pos: q, at_sol: false, skip: false },
                    }
                } else {
                    proof {
                        lemma_skip_bounds(input, m, st.pos);
                        lemma_skip_bounds(input, m, p1);
                        lemma_decode_bounds(input, p2);
                        lemma_skip_bounds(input, m, p3);
                    }
                    lex_step(input, m, LexSt { pos: q, at_sol: false, skip: false }, sol)
                }
            } else if cc == CategoryCode::Letter {
                LexStep {
                    tok: SpecTok {
                        kind: TokenKind::Letter,
                        sol,
                        loc: p2,
                        len: sz,
                        data: SpecTokData::Ch(char_payload(d.0)),
                    },
                    st: LexSt { pos: p3, at_sol: false, skip: false },
                }
            } else if cc == CategoryCode::Other {
                LexStep {
                    tok: SpecTok {
                        kind: TokenKind::Other,
                        sol,
                        loc: p2,
                        len: sz,
                        data: SpecTokData::Ch(char_payload(d.0)),
                    },
                    st: LexSt { pos: p3, at_sol: false, skip: false },
                }
            } else if cc == CategoryCode::Active {
                LexStep {
                    tok: SpecTok {
                        kind: TokenKind::ActiveChar,
                        sol,
                        loc: p2,
                        len: sz,
                        data: SpecTokData::Name(d.0.spec_encoding()),
                    },
                    st: LexSt { pos: p3, at_sol: false, skip: false },
                }
            } else if cc == CategoryCode::Comment {
                let q = finish_line_pos(input, p2);
                proof {
                    lemma_skip_bounds(input, m, st.pos);
                    lemma_skip_bounds(input, m, p1);
                    lemma_decode_bounds(input, p2);
                    lemma_finish_line_bounds(input, p2);
                }
                lex_step(input, m, LexSt { pos: q, at_sol: q < input.len(), skip: q < input.len() }, sol)
            } else if cc == CategoryCode::Invalid {
                proof {
                    lemma_skip_bounds(input, m, st.pos);
                    lemma_skip_bounds(input, m, p1);
                    lemma_decode_bounds(input, p2);
                }
                lex_step(input, m, LexSt { pos: p3, at_sol: false, skip: false }, sol)
            } else {
                // Ignored characters cannot stand here: stripping just
                // passed them over.
                arbitrary()
            }
        },
    }
}

/// A token whose whole span is one consumed character.
pub open spec fn simple_outcome(kind: TokenKind, sol: bool, p2: int, sz: int) -> LexStep {
    LexStep {
        tok: SpecTok { kind, sol, loc: p2, len: sz, data: SpecTokData::NoData },
        st: LexSt { pos: p2 + sz, at_sol: false, skip: false },
    }
}


/// Shape of every step outcome. These are the universal invariants of
/// the token stream, per call:
/// - the token starts at or after the old cursor (the gap holds only
///   stripped bytes) and ends at or before the new cursor, which stays
///   inside the input — so locations and lengths cover the input
///   monotonically and never point past it;
/// - `Eof` is produced exactly when the new cursor reached the end with
///   nothing more to produce: an `Eof` token is empty, sits at the new
///   cursor, and carries no data, and a non-`Eof` token consumes at
///   least one byte;
/// - a start-of-line flag already accumulated is never dropped;
/// - the data variant fits the kind.
#[verifier::rlimit(100)]
#[verifier::spinoff_prover]
pub proof fn lemma_step_shape(input: Seq<u8>, m: Map<u32, CategoryCode>, st: LexSt, sol0: bool)
    requires
        0 <= st.pos <= input.len(),
    ensures
        ({
            let step = lex_step(input, m, st, sol0);
            &&& st.pos <= step.tok.loc
            &&& step.tok.len >= 0
            &&& step.tok.loc + step.tok.len <= step.st.pos || step.tok.kind == TokenKind::Eof
            &&& 0 <= step.st.pos <= input.len()
            &&& (step.tok.kind == TokenKind::Eof <==> step.st.pos == step.tok.loc
                && step.tok.len == 0)
            &&& (step.tok.kind == TokenKind::Eof ==> step.tok.data is NoData && step.tok.loc
                == step.st.pos && step.tok.loc == input.len())
            &&& (step.tok.kind != TokenKind::Eof ==> step.tok.len >= 1)
            &&& (sol0 ==> step.tok.sol)
            &&& (st.at_sol ==> step.tok.sol)
            &&& match step.tok.data {
                SpecTokData::NoData => step.tok.kind == TokenKind::Eof || step.tok.kind
                    == TokenKind::BeginGroup || step.tok.kind == TokenKind::EndGroup
                    || step.tok.kind == TokenKind::MathShift || step.tok.kind
                    == TokenKind::AlignmentTab || step.tok.kind == TokenKind::Superscript
                    || step.tok.kind == TokenKind::Subscript || step.tok.kind == TokenKind::Space
                    || step.tok.kind == TokenKind::Paragraph,
                SpecTokData::Ch(_) => step.tok.kind == TokenKind::Letter || step.tok.kind
                    == TokenKind::Other,
                SpecTokData::ParamIx(_) => step.tok.kind == TokenKind::Parameter,
                SpecTokData::Sym(_) => step.tok.kind == TokenKind::ControlSymbol,
                SpecTokData::Name(_) => step.tok.kind == TokenKind::ControlWord || step.tok.kind
                    == TokenKind::ActiveChar,
            }
        }),
    decreases input.len() - st.pos,
{
    lemma_skip_bounds(input, m, st.pos);
    let p1 = if st.skip {
        skip_space_ignored(input, m, st.pos)
    } else {
        st.pos
    };
    lemma_skip_bounds(input, m, p1);
    let p2 = skip_ignored(input, m, p1);
    let sol = sol0 || st.at_sol;
    match decode_at(input, p2) {
        None => {},
        Some(d) => {
            lemma_decode_bounds(input, p2);
            lemma_skip_ignored_stops(input, m, p1);
            let cc = cat_of(m, d.0);
            let p3 = p2 + d.1;
            if cc == CategoryCode::Escape {
                match decode_at(input, p3) {
                    None => {},
                    Some(d2) => {
                        lemma_decode_bounds(input, p3);
                        if cat_of(m, d2.0) == CategoryCode::Letter {
                            lemma_word_end_bounds(input, m, p3);
                        }
                    },
                }
            } else if cc == CategoryCode::EndOfLine {
                if !(d.0 == MaybeChar::Char('\r') || d.0 == MaybeChar::Char('\n')) {
                    lemma_finish_line_bounds(input, p3);
                }
            } else if cc == CategoryCode::Space {
                let q = skip_spaces_only(input, m, p3);
                lemma_skip_bounds(input, m, p3);
                let emit = match decode_at(input, q) {
                    None => false,
                    Some(d2) => cat_of(m, d2.0) != CategoryCode::EndOfLine,
                };
                if !emit {
                    lemma_step_shape(input, m, LexSt { pos: q, at_sol: false, skip: false }, sol);
                }
            } else if cc == CategoryCode::Comment {
                let q = finish_line_pos(input, p2);
                lemma_finish_line_bounds(input, p2);
                lemma_step_shape(
                    input,
                    m,
                    LexSt { pos: q, at_sol: q < input.len(), skip: q < input.len() },
                    sol,
                );
            } else if cc == CategoryCode::Invalid {
                lemma_step_shape(input, m, LexSt { pos: p3, at_sol: false, skip: false }, sol);
            }
        },
    }
}


/// The whole token stream of one lexer run from a given state: every
/// token produced up to and including the final `Eof`.
pub open spec fn token_stream(input: Seq<u8>, m: Map<u32, CategoryCode>, st: LexSt) -> Seq<SpecTok>
    decreases input.len() - st.pos,
    when 0 <= st.pos <= input.len()
{
    let step = lex_step(input, m, st, false);
    if step.tok.kind == TokenKind::Eof {
        seq![step.tok]
    } else {
        proof {
            lemma_step_shape(input, m, st, false);
        }
        seq![step.tok] + token_stream(input, m, step.st)
    }
}

/// Law: exactly one `Eof` token is emitted, and it stands at the end of
/// the stream.
pub proof fn lemma_stream_single_eof(input: Seq<u8>, m: Map<u32, CategoryCode>, st: LexSt)
    requires
        0 <= st.pos <= input.len(),
    ensures
        token_stream(input, m, st).len() >= 1,
        token_stream(input, m, st).last().kind == TokenKind::Eof,
        forall|i: int| 0 <= i < token_stream(input, m, st).len() - 1 ==> (
        #[trigger] token_stream(input, m, st)[i]).kind != TokenKind::Eof,
    decreases input.len() - st.pos,
{
    let step = lex_step(input, m, st, false);
    if step.tok.kind != TokenKind::Eof {
        lemma_step_shape(input, m, st, false);
        lemma_stream_single_eof(input, m, step.st);
        let rest = token_stream(input, m, step.st);
        assert(token_stream(input, m, st).last() == rest.last());
    }
}

/// Law: the stream's locations and lengths cover the input
/// monotonically, without overlap: each token ends at or before the
/// next one begins (the gaps hold only stripped bytes), the first token
/// starts at or after the starting cursor, no token passes the end of
/// the input, and the final `Eof` sits exactly at the end of the input
/// with length zero.
#[verifier::rlimit(100)]
#[verifier::spinoff_prover]
pub proof fn lemma_stream_coverage(input: Seq<u8>, m: Map<u32, CategoryCode>, st: LexSt)
    requires
        0 <= st.pos <= input.len(),
    ensures
        ({
            let stream = token_stream(input, m, st);
            &&& stream.len() >= 1
            &&& st.pos <= stream[0].loc
            &&& forall|i: int| 0 <= i < stream.len() - 1 ==> (#[trigger] stream[i]).loc
                + stream[i].len <= stream[i + 1].loc
            &&& forall|i: int| 0 <= i < stream.len() ==> 0 <= (#[trigger] stream[i]).loc && stream[
                i
            ].loc + stream[i].len <= input.len()
            &&& stream.last().loc == input.len()
            &&& stream.last().len == 0
        }),
    decreases input.len() - st.pos,
{
    let stream = token_stream(input, m, st);
    let step = lex_step(input, m, st, false);
    lemma_step_shape(input, m, st, false);
    if step.tok.kind != TokenKind::Eof {
        lemma_stream_coverage(input, m, step.st);
        let rest = token_stream(input, m, step.st);
        assert(stream == seq![step.tok] + rest);
        assert(stream.last() == rest.last());
        assert forall|i: int| 0 <= i < stream.len() - 1 implies (#[trigger] stream[i]).loc
            + stream[i].len <= stream[i + 1].loc by {
            if i == 0 {
                assert(stream[1] == rest[0]);
                assert(step.tok.loc + step.tok.len <= step.st.pos);
            } else {
                assert(stream[i] == rest[i - 1]);
                assert(stream[i + 1] == rest[i]);
            }
        }
        assert forall|i: int| 0 <= i < stream.len() implies 0 <= (#[trigger] stream[i]).loc
            && stream[i].loc + stream[i].len <= input.len() by {
            if i > 0 {
                assert(stream[i] == rest[i - 1]);
            }
        }
    }
}

/// Law: a step begun at the start of a line marks its token with the
/// start-of-line flag. Together with the line-break steps — which leave
/// `at_sol` set — this says the very first token of a fresh lexer and
/// the first token after any end of line carry the flag.
pub proof fn lemma_start_of_line_flag(
    input: Seq<u8>,
    m: Map<u32, CategoryCode>,
    st: LexSt,
    sol0: bool,
)
    requires
        0 <= st.pos <= input.len(),
        st.at_sol || sol0,
    ensures
        lex_step(input, m, st, sol0).tok.sol,
{
    lemma_step_shape(input, m, st, sol0);
}

/// Law: a line break is followed by a flagged token: whenever one step
/// leaves the lexer at the start of a line — as every token produced
/// from a literal end-of-line byte does — the very next token of the
/// stream carries the start-of-line flag.
pub proof fn lemma_flag_after_line_break(
    input: Seq<u8>,
    m: Map<u32, CategoryCode>,
    st: LexSt,
    sol0: bool,
)
    requires
        0 <= st.pos <= input.len(),
    ensures
        ({
            let step = lex_step(input, m, st, sol0);
            step.st.at_sol ==> lex_step(input, m, step.st, false).tok.sol
        }),
{
    let step = lex_step(input, m, st, sol0);
    lemma_step_shape(input, m, st, sol0);
    if step.st.at_sol {
        lemma_start_of_line_flag(input, m, step.st, false);
    }
}

/// Law: the two caret forms are mutually exclusive per position, and
/// the hexadecimal form wins whenever both of its digits are present:
/// `^^` with two hexadecimal digits decodes the byte pair in four
/// bytes; `^^X` with anything else after it decodes the shifted third
/// byte in three bytes.
pub proof fn lemma_caret_forms(input: Seq<u8>, pos: int)
    requires
        0 <= pos,
        pos + 2 < input.len(),
        input[pos] == '^' as u8,
        input[pos + 1] == '^' as u8,
    ensures
        pos + 3 < input.len() && is_hex_digit(input[pos + 2]) && is_hex_digit(input[pos + 3])
            ==> decode_at(input, pos) == Some(
            (
                MaybeChar::Char(
                    ((hex_value(input[pos + 2]) * 16 + hex_value(input[pos + 3])) as u8) as char,
                ),
                4int,
                true,
            ),
        ),
        !(pos + 3 < input.len() && is_hex_digit(input[pos + 2]) && is_hex_digit(input[pos + 3]))
            ==> decode_at(input, pos) == Some(
            (MaybeChar::Char(caret_decoded(input[pos + 2]) as char), 3int, true),
        ),
{
}

/// Law: caret decoding needs the full pattern: a `^` that is not
/// followed by a second `^` and at least one more byte stands for
/// itself, one untransformed byte.
pub proof fn lemma_caret_incomplete(input: Seq<u8>, pos: int)
    requires
        0 <= pos < input.len(),
        input[pos] == '^' as u8,
        !(pos + 2 < input.len() && input[pos + 1] == '^' as u8),
    ensures
        decode_at(input, pos) == Some((MaybeChar::Char('^'), 1int, false)),
{
}

/// Law: a literal `\r\n` pair at the cursor is consumed as one logical
/// end of line: the step emits a single `Space` or `Paragraph` token of
/// length two and leaves the lexer at the start of the next line.
pub proof fn lemma_crlf_single_token(
    input: Seq<u8>,
    m: Map<u32, CategoryCode>,
    st: LexSt,
    sol0: bool,
)
    requires
        0 <= st.pos,
        st.pos + 1 < input.len(),
        input[st.pos] == '\r' as u8,
        input[st.pos + 1] == '\n' as u8,
        !st.skip,
        cat_raw(m, '\r' as u32) == CategoryCode::EndOfLine,
    ensures
        ({
            let step = lex_step(input, m, st, sol0);
            &&& step.tok.kind == (if sol0 || st.at_sol {
                TokenKind::Paragraph
            } else {
                TokenKind::Space
            })
            &&& step.tok.loc == st.pos
            &&& step.tok.len == 2
            &&& step.tok.data is NoData
            &&& step.st == (LexSt { pos: st.pos + 2, at_sol: true, skip: true })
        }),
{
    assert(decode_at(input, st.pos) == Some((MaybeChar::Char('\r'), 2int, true)));
    assert(skip_ignored(input, m, st.pos) == st.pos);
}


/// Total number of input bytes the stream's tokens account for.
pub open spec fn covered_length(stream: Seq<SpecTok>) -> int
    decreases stream.len(),
{
    if stream.len() == 0 {
        0
    } else {
        stream[0].len + covered_length(stream.drop_first())
    }
}

/// Total number of input bytes stripped between tokens: for each token,
/// the gap between where the previous token's span ended (initially the
/// starting cursor) and where this token begins. These are the bytes
/// consumed by comments, invalid characters, ignored characters and
/// swallowed space runs.
pub open spec fn stripped_length(stream: Seq<SpecTok>, start: int) -> int
    decreases stream.len(),
{
    if stream.len() == 0 {
        0
    } else {
        (stream[0].loc - start) + stripped_length(stream.drop_first(), stream[0].loc + stream[0].len)
    }
}

/// Moving the starting point of the gap accounting shifts the total by
/// exactly that distance.
proof fn lemma_stripped_shift(stream: Seq<SpecTok>, a: int, b: int)
    requires
        stream.len() > 0,
    ensures
        stripped_length(stream, a) == stripped_length(stream, b) + b - a,
{
}

/// Law: for any input, the sum of token lengths (the final `Eof`
/// contributing zero) plus the bytes stripped between tokens equals the
/// length of the input read. From a fresh lexer the cursor starts at
/// zero, so the two sums cover the whole input.
pub proof fn lemma_stream_accounting(input: Seq<u8>, m: Map<u32, CategoryCode>, st: LexSt)
    requires
        0 <= st.pos <= input.len(),
    ensures
        covered_length(token_stream(input, m, st)) + stripped_length(
            token_stream(input, m, st),
            st.pos,
        ) == input.len() - st.pos,
    decreases input.len() - st.pos,
{
    let stream = token_stream(input, m, st);
    let step = lex_step(input, m, st, false);
    lemma_step_shape(input, m, st, false);
    if step.tok.kind == TokenKind::Eof {
        assert(stream == seq![step.tok]);
        assert(stream.drop_first() =~= Seq::<SpecTok>::empty());
        assert(stream[0] == step.tok);
        assert(covered_length(stream) == step.tok.len + covered_length(stream.drop_first()));
        assert(covered_length(stream.drop_first()) == 0);
        assert(stripped_length(stream.drop_first(), step.tok.loc + step.tok.len) == 0);
        assert(stripped_length(stream, st.pos) == step.tok.loc - st.pos);
    } else {
        let rest = token_stream(input, m, step.st);
        assert(stream == seq![step.tok] + rest);
        assert(stream.drop_first() =~= rest);
        assert(stream[0] == step.tok);
        lemma_stream_accounting(input, m, step.st);
        lemma_stream_single_eof(input, m, step.st);
        assert(rest.len() > 0);
        lemma_stripped_shift(rest, step.tok.loc + step.tok.len, step.st.pos);
        assert(covered_length(stream) == step.tok.len + covered_length(rest));
        assert(stripped_length(stream, st.pos) == (step.tok.loc - st.pos) + stripped_length(
            rest,
            step.tok.loc + step.tok.len,
        ));
        assert(stripped_length(rest, step.tok.loc + step.tok.len) == stripped_length(
            rest,
            step.st.pos,
        ) + step.st.pos - (step.tok.loc + step.tok.len));
    }
}

} // verus!
