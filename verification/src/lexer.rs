use vstd::prelude::*;
use vstd::slice::slice_subrange;
use vstd::slice::slice_to_vec;
use crate::category_code::CategoryCode;
use crate::category_code::CategoryCodeTable;
use crate::category_code::cat_raw;
use crate::category_code::default_cat_raw;
use crate::command_identifier::CommandIdentifierTable;
use crate::command_identifier::spec_intern;
use crate::lex_model::LexSt;
use crate::lex_model::SpecTok;
use crate::lex_model::SpecTokData;
use crate::lex_model::cat_of;
use crate::lex_model::char_payload;
use crate::lex_model::decode_at;
use crate::lex_model::escape_outcome;
use crate::lex_model::finish_line_pos;
use crate::lex_model::hex_value;
use crate::lex_model::is_hex_digit;
use crate::lex_model::lemma_decode_bounds;
use crate::lex_model::lemma_finish_line_bounds;
use crate::lex_model::lemma_skip_bounds;
use crate::lex_model::lex_step;
use crate::lex_model::skip_ignored;
use crate::lex_model::skip_space_ignored;
use crate::lex_model::skip_spaces_only;
use crate::lex_model::word_decoded;
use crate::lex_model::word_end;
use crate::lex_model::word_name;
use crate::maybe_char::MaybeChar;
use crate::source_location::SourceLocation;
use crate::token::Token;
use crate::token::TokenData;
use crate::token::TokenFlags;
use crate::token::TokenKind;
use crate::token::kind_data_consistent;

verus! {

/// Numeric value of an ASCII hexadecimal digit character.
fn hex_char_to_value(ch: u8) -> (r: u8)
    requires
        is_hex_digit(ch),
    ensures
        r == hex_value(ch),
        r <= 15,
{
    if 48 <= ch && ch <= 57 {
        ch - 48
    } else if 97 <= ch && ch <= 102 {
        ch - 97 + 10
    } else {
        ch - 65 + 10
    }
}

/// ASCII hexadecimal digit test.
fn is_ascii_hex_digit(ch: u8) -> (r: bool)
    ensures
        r == is_hex_digit(ch),
{
    (48 <= ch && ch <= 57) || (97 <= ch && ch <= 102) || (65 <= ch && ch <= 70)
}

/// How an executable token record realizes one abstract token of the
/// stream, given the interner's contents before and after the call: all
/// fields agree, and a command name has been interned, leaving every
/// earlier entry in place.
pub open spec fn token_matches(
    t: Token,
    s: SpecTok,
    tab0: Seq<Seq<u8>>,
    tab1: Seq<Seq<u8>>,
) -> bool {
    &&& t.spec_kind() == s.kind
    &&& t.spec_location().offset == s.loc
    &&& t.spec_length() == s.len
    &&& t.spec_flags().spec_bits() == (if s.sol {
        1u8
    } else {
        0u8
    })
    &&& match s.data {
        SpecTokData::NoData => t.spec_data() == TokenData::NoData && tab1 == tab0,
        SpecTokData::Ch(c) => t.spec_data() == TokenData::Char(c) && tab1 == tab0,
        SpecTokData::ParamIx(o) => t.spec_data() == TokenData::ParameterIndex(o) && tab1 == tab0,
        SpecTokData::Sym(o) => t.spec_data() == TokenData::Symbol(o) && tab1 == tab0,
        SpecTokData::Name(nm) => {
            &&& tab1 == spec_intern(tab0, nm).0
            &&& (t.spec_data() matches TokenData::CommandIdentifier(id) && id.spec_index()
                == spec_intern(tab0, nm).1)
        },
    }
}

/// Turns a byte buffer into a stream of tokens. The lexer owns its
/// category-code table; command names are interned through the table
/// passed to each [`Lexer::lex`] call.
pub struct Lexer {
    /// The input bytes being lexed.
    input: Vec<u8>,
    /// Category code table deciding each character's role.
    category_code_table: CategoryCodeTable,
    /// Start position of the next token to be lexed.
    next_token_start_pos: usize,
    /// True at the start of a line.
    at_start_of_line: bool,
    /// True while space tokens are being discarded.
    skip_spaces: bool,
}

impl Lexer {
    /// The input bytes.
    pub closed spec fn spec_input(self) -> Seq<u8> {
        self.input@
    }

    /// The category assignments in force.
    pub closed spec fn spec_cat(self) -> Map<u32, CategoryCode> {
        self.category_code_table@
    }

    /// The lexer's between-token state.
    pub closed spec fn st(self) -> LexSt {
        LexSt {
            pos: self.next_token_start_pos as int,
            at_sol: self.at_start_of_line,
            skip: self.skip_spaces,
        }
    }

    /// The cursor sits inside the input, whose length fits a `u32`
    /// source location.
    pub open spec fn wf(self) -> bool {
        &&& self.spec_input().len() <= u32::MAX
        &&& 0 <= self.st().pos <= self.spec_input().len()
    }

    /// A fresh lexer over the given bytes: cursor at the start, start of
    /// a line, skipping leading blanks, plain-TeX category codes.
    pub fn from_bytes(input: Vec<u8>) -> (r: Self)
        requires
            input@.len() <= u32::MAX,
        ensures
            r.wf(),
            r.spec_input() == input@,
            r.st() == (LexSt { pos: 0, at_sol: true, skip: true }),
            forall|k: u32| #[trigger] cat_raw(r.spec_cat(), k) == default_cat_raw(k),
    {
        Self {
            input,
            category_code_table: CategoryCodeTable::new(),
            next_token_start_pos: 0,
            at_start_of_line: true,
            skip_spaces: true,
        }
    }

    /// Reassigns one character's category for all subsequent characters.
    pub fn set_category_code(&mut self, maybe_char: MaybeChar, category_code: CategoryCode)
        ensures
            final(self).spec_cat() == old(self).spec_cat().insert(
                maybe_char.spec_raw(),
                category_code,
            ),
            final(self).spec_input() == old(self).spec_input(),
            final(self).st() == old(self).st(),
            old(self).wf() ==> final(self).wf(),
    {
        self.category_code_table.set(maybe_char, category_code);
    }

    /// The logical character decoder: reads one logical character at
    /// `current_pos`, reporting the decoded character, the number of
    /// input bytes it occupies, and whether any transformation (caret
    /// notation, CRLF folding) was applied. The result is exactly the
    /// model decoder [`decode_at`]; its caret-precedence and CRLF laws
    /// stand beside it ([`crate::lex_model::lemma_caret_forms`],
    /// [`crate::lex_model::lemma_caret_incomplete`],
    /// [`crate::lex_model::lemma_crlf_single_token`]).
    fn get_char_and_size(&self, current_pos: usize) -> (r: Option<(MaybeChar, usize, bool)>)
        ensures
            decode_at(self.spec_input(), current_pos as int) is None ==> r is None,
            decode_at(self.spec_input(), current_pos as int) matches Some(d) ==> (r matches
                Some(t) && t.0 == d.0 && t.1 as int == d.1 && t.2 == d.2),
    {
        let len = self.input.len();
        if current_pos >= len {
            return None;
        }
        let ch = self.input[current_pos];

        if ch == 94 && len - current_pos > 2 && self.input[current_pos + 1] == 94 {
            let third_char = self.input[current_pos + 2];

            if len - current_pos > 3 {
                let hex1 = third_char;
                let hex2 = self.input[current_pos + 3];
                if is_ascii_hex_digit(hex1) && is_ascii_hex_digit(hex2) {
                    let decoded = hex_char_to_value(hex1) * 16 + hex_char_to_value(hex2);
                    return Some((MaybeChar::from_char(decoded as char), 4, true));
                }
            }

            let decoded = if third_char >= 64 {
                third_char - 64
            } else {
                third_char + 64
            };
            return Some((MaybeChar::from_char(decoded as char), 3, true));
        }

        if ch == 13 && len - current_pos > 1 && self.input[current_pos + 1] == 10 {
            return Some((MaybeChar::from_char('\r'), 2, true));
        }

        Some((MaybeChar::from_char(ch as char), 1, false))
    }

    /// The decoded character at `current_pos` without advancing.
    fn peek_char(&self, current_pos: usize) -> (r: Option<MaybeChar>)
        ensures
            decode_at(self.spec_input(), current_pos as int) is None ==> r is None,
            decode_at(self.spec_input(), current_pos as int) matches Some(d) ==> r == Some(d.0),
    {
        match self.get_char_and_size(current_pos) {
            Some((maybe_char, _, _)) => Some(maybe_char),
            None => None,
        }
    }

    /// Advances the cursor over the logical character at its position,
    /// if any, and reports the new cursor.
    fn consume_char(&self, current_pos: &mut usize) -> (r: usize)
        ensures
            decode_at(self.spec_input(), *old(current_pos) as int) is None ==> *final(current_pos)
                == *old(current_pos),
            decode_at(self.spec_input(), *old(current_pos) as int) matches Some(d)
                ==> *final(current_pos) == *old(current_pos) + d.1,
            r == *final(current_pos),
    {
        let len = self.input.len();
        match self.get_char_and_size(*current_pos) {
            Some((_, size, _)) => {
                proof {
                    lemma_decode_bounds(self.spec_input(), *current_pos as int);
                }
                *current_pos = *current_pos + size;
            },
            None => {},
        }
        *current_pos
    }

    /// Fills the token in place from the committed start position to
    /// `cur_token_end_pos`, and moves the committed start position there
    /// for the next token.
    fn form_token_with_data(
        &mut self,
        token: &mut Token,
        kind: TokenKind,
        token_data: TokenData,
        cur_token_end_pos: usize,
    )
        requires
            kind_data_consistent(kind, token_data),
            old(self).st().pos <= cur_token_end_pos <= u32::MAX,
        ensures
            final(token).spec_kind() == kind,
            final(token).spec_location().offset == old(self).st().pos,
            final(token).spec_length() == cur_token_end_pos - old(self).st().pos,
            final(token).spec_data() == token_data,
            final(token).spec_flags() == old(token).spec_flags(),
            final(self).st() == (LexSt { pos: cur_token_end_pos as int, ..old(self).st() }),
            final(self).spec_input() == old(self).spec_input(),
            final(self).spec_cat() == old(self).spec_cat(),
    {
        let start_location = SourceLocation::new(self.next_token_start_pos as u32);

        token.set_kind(kind);
        token.set_location(start_location);
        token.set_length((cur_token_end_pos - self.next_token_start_pos) as u32);
        token.set_token_data(token_data);

        self.next_token_start_pos = cur_token_end_pos;
    }

    /// [`Lexer::form_token_with_data`] for a token without data.
    fn form_token(&mut self, token: &mut Token, kind: TokenKind, cur_token_end_pos: usize)
        requires
            old(self).st().pos <= cur_token_end_pos <= u32::MAX,
        ensures
            final(token).spec_kind() == kind,
            final(token).spec_location().offset == old(self).st().pos,
            final(token).spec_length() == cur_token_end_pos - old(self).st().pos,
            final(token).spec_data() == TokenData::NoData,
            final(token).spec_flags() == old(token).spec_flags(),
            final(self).st() == (LexSt { pos: cur_token_end_pos as int, ..old(self).st() }),
            final(self).spec_input() == old(self).spec_input(),
            final(self).spec_cat() == old(self).spec_cat(),
    {
        self.form_token_with_data(token, kind, TokenData::NoData, cur_token_end_pos);
    }

    /// Discards raw bytes through the next literal line terminator,
    /// `\r\n` counting as one, and prepares the state for the next line
    /// unless the input ended.
    fn finish_line(&mut self)
        requires
            old(self).wf(),
        ensures
            final(self).wf(),
            final(self).spec_input() == old(self).spec_input(),
            final(self).spec_cat() == old(self).spec_cat(),
            final(self).st().pos == finish_line_pos(old(self).spec_input(), old(self).st().pos),
            final(self).st().at_sol == (if final(self).st().pos < old(self).spec_input().len() {
                true
            } else {
                old(self).st().at_sol
            }),
            final(self).st().skip == (if final(self).st().pos < old(self).spec_input().len() {
                true
            } else {
                old(self).st().skip
            }),
    {
        let ghost input = self.spec_input();
        let ghost start = self.st().pos;
        let len = self.input.len();
        loop
            invariant_except_break
                finish_line_pos(input, start) == finish_line_pos(
                    input,
                    self.next_token_start_pos as int,
                ),
            invariant
                start <= self.next_token_start_pos as int <= input.len(),
                len == input.len(),
                input == self.spec_input(),
                self.spec_cat() == old(self).spec_cat(),
                self.at_start_of_line == old(self).at_start_of_line,
                self.skip_spaces == old(self).skip_spaces,
            ensures
                self.spec_input() == input,
                self.spec_cat() == old(self).spec_cat(),
                self.at_start_of_line == old(self).at_start_of_line,
                self.skip_spaces == old(self).skip_spaces,
                self.next_token_start_pos as int == finish_line_pos(input, start),
            decreases input.len() - self.next_token_start_pos,
        {
            if self.next_token_start_pos >= len {
                break;
            }
            let ch = self.input[self.next_token_start_pos];
            self.next_token_start_pos = self.next_token_start_pos + 1;

            if ch == 13 {
                if self.next_token_start_pos < len && self.input[self.next_token_start_pos]
                    == 10 {
                    self.next_token_start_pos = self.next_token_start_pos + 1;
                }
                break;
            } else if ch == 10 {
                break;
            }
        }

        if self.next_token_start_pos < len {
            self.at_start_of_line = true;
            self.skip_spaces = true;
        }
    }
}
/// Bit facts for the one-bit flag set the lexer uses.
proof fn lemma_flag_bits()
    ensures
        0u8 | 1u8 == 1u8,
        1u8 | 1u8 == 1u8,
        0u8 & 1u8 == 0u8,
        1u8 & 1u8 == 1u8,
{
    assert(0u8 | 1u8 == 1u8) by (bit_vector);
    assert(1u8 | 1u8 == 1u8) by (bit_vector);
    assert(0u8 & 1u8 == 0u8) by (bit_vector);
    assert(1u8 & 1u8 == 1u8) by (bit_vector);
}

impl Lexer {
    /// Scans the remaining letters of a control word whose first letter
    /// was just consumed, interns the word's identifying bytes, and
    /// forms the `ControlWord` token. While no transformation has been
    /// seen the name is the raw input slice; from the first transformed
    /// letter on it is accumulated from decoded encodings.
    fn lex_control_word_continue(
        &mut self,
        token: &mut Token,
        table: &mut CommandIdentifierTable,
        current_pos: &mut usize,
        first_ch: MaybeChar,
        first_ch_size: usize,
        is_first_ch_transformed: bool,
    )
        requires
            old(self).wf(),
            old(table).wf(),
            first_ch_size <= *old(current_pos),
            ({
                let cw = *old(current_pos) - first_ch_size;
                &&& decode_at(old(self).spec_input(), cw as int) == Some(
                    (first_ch, first_ch_size as int, is_first_ch_transformed),
                )
                &&& cat_of(old(self).spec_cat(), first_ch) == CategoryCode::Letter
                &&& old(self).st().pos <= cw as int
            }),
        ensures
            final(self).wf(),
            final(table).wf(),
            final(self).spec_input() == old(self).spec_input(),
            final(self).spec_cat() == old(self).spec_cat(),
            ({
                let input = old(self).spec_input();
                let m = old(self).spec_cat();
                let cw = *old(current_pos) - first_ch_size;
                let e = word_end(input, m, cw as int);
                let nm = word_name(input, m, cw as int);
                &&& *final(current_pos) == e
                &&& final(self).st().pos == e
                &&& final(self).st().at_sol == old(self).st().at_sol
                &&& final(self).st().skip == true
                &&& final(token).spec_kind() == TokenKind::ControlWord
                &&& final(token).spec_location().offset == old(self).st().pos
                &&& final(token).spec_length() == e - old(self).st().pos
                &&& final(token).spec_flags() == old(token).spec_flags()
                &&& final(table)@ == spec_intern(old(table)@, nm).0
                &&& (final(token).spec_data() matches TokenData::CommandIdentifier(id)
                    && id.spec_index() == spec_intern(old(table)@, nm).1)
            }),
    {
        let ghost input = self.spec_input();
        let ghost m = self.spec_cat();
        let control_word_start = *current_pos - first_ch_size;
        let ghost cw = control_word_start as int;

        proof {
            lemma_decode_bounds(input, cw);
        }

        let mut transformed = is_first_ch_transformed;
        let mut owned_name_bytes: Vec<u8> = if is_first_ch_transformed {
            first_ch.encode_utf8()
        } else {
            Vec::new()
        };

        proof {
            if is_first_ch_transformed {
                assert(word_name(input, m, cw) == word_decoded(input, m, cw));
                assert(word_decoded(input, m, cw) == first_ch.spec_encoding() + word_decoded(
                    input,
                    m,
                    *current_pos as int,
                ));
            } else {
                assert(word_name(input, m, cw) == seq![input[cw]] + word_name(
                    input,
                    m,
                    *current_pos as int,
                ));
                assert(input.subrange(cw, *current_pos as int) =~= seq![input[cw]]);
            }
        }

        loop
            invariant_except_break
                cw + 1 <= *current_pos as int <= input.len(),
                word_end(input, m, cw) == word_end(input, m, *current_pos as int),
                !transformed ==> word_name(input, m, cw) == input.subrange(
                    cw,
                    *current_pos as int,
                ) + word_name(input, m, *current_pos as int),
                transformed ==> word_name(input, m, cw) == owned_name_bytes@ + word_decoded(
                    input,
                    m,
                    *current_pos as int,
                ),
            invariant
                self.spec_input() == input,
                self.spec_cat() == m,
                cw >= 0,
                cw == control_word_start as int,
                input.len() <= u32::MAX,
            ensures
                cw + 1 <= *current_pos as int <= input.len(),
                *current_pos as int == word_end(input, m, cw),
                !transformed ==> word_name(input, m, cw) == input.subrange(
                    cw,
                    *current_pos as int,
                ),
                transformed ==> word_name(input, m, cw) == owned_name_bytes@,
            decreases input.len() - *current_pos,
        {
            let ghost cur0 = *current_pos as int;
            let ghost owned0 = owned_name_bytes@;
            let ghost tr0 = transformed;
            match self.get_char_and_size(*current_pos) {
                Some((ch, _, is_transformed)) => {
                    if !self.category_code_table.is_letter(ch) {
                        proof {
                            assert(word_end(input, m, cur0) == cur0);
                            assert(word_name(input, m, cur0) == Seq::<u8>::empty());
                            assert(word_decoded(input, m, cur0) == Seq::<u8>::empty());
                            if !transformed {
                                assert(input.subrange(cw, cur0) + Seq::<u8>::empty()
                                    =~= input.subrange(cw, cur0));
                            } else {
                                assert(owned_name_bytes@ + Seq::<u8>::empty()
                                    =~= owned_name_bytes@);
                            }
                        }
                        break;
                    }
                    proof {
                        lemma_decode_bounds(input, cur0);
                        assert(control_word_start as int + 1 <= *current_pos as int);
                    }
                    if transformed {
                        let enc = ch.encode_utf8();
                        owned_name_bytes.extend_from_slice(enc.as_slice());
                    } else {
                        if is_transformed {
                            let prefix = slice_subrange(
                                self.input.as_slice(),
                                control_word_start,
                                *current_pos,
                            );
                            owned_name_bytes = slice_to_vec(prefix);
                            let enc = ch.encode_utf8();
                            owned_name_bytes.extend_from_slice(enc.as_slice());
                            transformed = true;
                        }
                    }
                    self.consume_char(current_pos);
                    proof {
                        let d = decode_at(input, cur0).unwrap();
                        let nxt = cur0 + d.1;
                        let enc = d.0.spec_encoding();
                        assert(word_end(input, m, cur0) == word_end(input, m, nxt));
                        assert(word_decoded(input, m, cur0) == enc + word_decoded(input, m, nxt));
                        if tr0 {
                            assert(owned_name_bytes@ == owned0 + enc);
                            assert(owned0 + (enc + word_decoded(input, m, nxt)) =~= (owned0 + enc)
                                + word_decoded(input, m, nxt));
                        } else if d.2 {
                            assert(word_name(input, m, cur0) == word_decoded(input, m, cur0));
                            assert(owned_name_bytes@ == input.subrange(cw, cur0) + enc);
                            assert(input.subrange(cw, cur0) + (enc + word_decoded(input, m, nxt))
                                =~= (input.subrange(cw, cur0) + enc) + word_decoded(
                                input,
                                m,
                                nxt,
                            ));
                        } else {
                            assert(word_name(input, m, cur0) == seq![input[cur0]] + word_name(
                                input,
                                m,
                                nxt,
                            ));
                            assert(input.subrange(cw, cur0) + seq![input[cur0]] =~= input.subrange(
                                cw,
                                cur0 + 1,
                            ));
                            assert(input.subrange(cw, cur0) + (seq![input[cur0]] + word_name(
                                input,
                                m,
                                nxt,
                            )) =~= (input.subrange(cw, cur0) + seq![input[cur0]]) + word_name(
                                input,
                                m,
                                nxt,
                            ));
                        }
                    }
                },
                None => {
                    proof {
                        assert(word_end(input, m, cur0) == cur0);
                        if !transformed {
                            assert(input.subrange(cw, cur0) + Seq::<u8>::empty() =~= input.subrange(
                                cw,
                                cur0,
                            ));
                        } else {
                            assert(owned_name_bytes@ + Seq::<u8>::empty() =~= owned_name_bytes@);
                        }
                    }
                    break;
                },
            }
        }

        let id = if transformed {
            table.get_or_insert(owned_name_bytes.as_slice())
        } else {
            let name_slice = slice_subrange(
                self.input.as_slice(),
                control_word_start,
                *current_pos,
            );
            table.get_or_insert(name_slice)
        };
        self.form_token_with_data(
            token,
            TokenKind::ControlWord,
            TokenData::CommandIdentifier(id),
            *current_pos,
        );
        self.skip_spaces = true;
    }

    /// An escape character starts a control sequence at the committed
    /// token start: reads the control word or control symbol after it.
    fn lex_control_sequence(
        &mut self,
        token: &mut Token,
        table: &mut CommandIdentifierTable,
        current_pos: &mut usize,
    )
        requires
            old(self).wf(),
            old(table).wf(),
            *old(current_pos) == old(self).st().pos,
            old(self).st().at_sol == false,
            old(self).st().skip == false,
            decode_at(old(self).spec_input(), old(self).st().pos) is Some,
        ensures
            final(self).wf(),
            final(table).wf(),
            final(self).spec_input() == old(self).spec_input(),
            final(self).spec_cat() == old(self).spec_cat(),
            ({
                let input = old(self).spec_input();
                let m = old(self).spec_cat();
                let p2 = old(self).st().pos;
                let d = decode_at(input, p2).unwrap();
                let step = escape_outcome(input, m, p2, d.1, false);
                &&& final(self).st() == step.st
                &&& final(token).spec_kind() == step.tok.kind
                &&& final(token).spec_location().offset == step.tok.loc
                &&& final(token).spec_length() == step.tok.len
                &&& final(token).spec_flags() == old(token).spec_flags()
                &&& match step.tok.data {
                    SpecTokData::Sym(o) => final(token).spec_data() == TokenData::Symbol(o)
                        && final(table)@ == old(table)@,
                    SpecTokData::Name(nm) => {
                        &&& final(table)@ == spec_intern(old(table)@, nm).0
                        &&& (final(token).spec_data() matches TokenData::CommandIdentifier(id)
                            && id.spec_index() == spec_intern(old(table)@, nm).1)
                    },
                    _ => false,
                }
            }),
    {
        let ghost input = self.spec_input();
        let ghost m = self.spec_cat();
        let ghost p2 = self.st().pos;
        proof {
            lemma_decode_bounds(input, p2);
        }
        self.consume_char(current_pos);

        match self.get_char_and_size(*current_pos) {
            Some((maybe_char, size, is_transformed)) => {
                if self.category_code_table.is_letter(maybe_char) {
                    proof {
                        lemma_decode_bounds(input, *current_pos as int);
                    }
                    self.consume_char(current_pos);
                    self.lex_control_word_continue(
                        token,
                        table,
                        current_pos,
                        maybe_char,
                        size,
                        is_transformed,
                    );
                } else {
                    proof {
                        lemma_decode_bounds(input, *current_pos as int);
                    }
                    self.consume_char(current_pos);
                    self.skip_spaces = self.category_code_table.is_space(maybe_char);
                    let symbol_data = TokenData::Symbol(Some(maybe_char));
                    self.form_token_with_data(
                        token,
                        TokenKind::ControlSymbol,
                        symbol_data,
                        *current_pos,
                    );
                }
            },
            None => {
                self.form_token_with_data(
                    token,
                    TokenKind::ControlSymbol,
                    TokenData::Symbol(None),
                    *current_pos,
                );
            },
        }
    }
}



/// After the blank stripping of one `lex` call, producing the token
/// from the committed cursor with the accumulated start-of-line flag is
/// the same as the whole step from the original state.
proof fn lemma_step_committed(
    input: Seq<u8>,
    m: Map<u32, CategoryCode>,
    st0: LexSt,
    sol0: bool,
    p2: int,
)
    requires
        0 <= st0.pos <= input.len(),
        p2 == skip_ignored(
            input,
            m,
            if st0.skip {
                skip_space_ignored(input, m, st0.pos)
            } else {
                st0.pos
            },
        ),
        decode_at(input, p2) matches Some(dd) ==> cat_of(m, dd.0) != CategoryCode::Ignored,
    ensures
        0 <= p2 <= input.len(),
        lex_step(input, m, st0, sol0) == lex_step(
            input,
            m,
            LexSt { pos: p2, at_sol: false, skip: false },
            sol0 || st0.at_sol,
        ),
{
    lemma_skip_bounds(input, m, st0.pos);
    let p1 = if st0.skip {
        skip_space_ignored(input, m, st0.pos)
    } else {
        st0.pos
    };
    lemma_skip_bounds(input, m, p1);
    assert(skip_ignored(input, m, p2) == p2);
}

impl Lexer {
    /// Dispatches on the character at the committed cursor and either
    /// produces the token of this step, or consumes a stretch of input
    /// that yields no token (a comment, an invalid character, a space
    /// run swallowed before an end of line) and reports that the caller
    /// must go round again. `sol` is the start-of-line flag already
    /// carried by `token`.
    #[verifier::rlimit(100)]
    #[verifier::spinoff_prover]
    fn lex_dispatch(
        &mut self,
        token: &mut Token,
        table: &mut CommandIdentifierTable,
        Ghost(sol): Ghost<bool>,
    ) -> (produced: bool)
        requires
            old(self).wf(),
            old(table).wf(),
            old(self).st().at_sol == false,
            old(self).st().skip == false,
            decode_at(old(self).spec_input(), old(self).st().pos) matches Some(dd) ==> cat_of(
                old(self).spec_cat(),
                dd.0,
            ) != CategoryCode::Ignored,
            old(token).spec_flags().spec_bits() == (if sol {
                1u8
            } else {
                0u8
            }),
        ensures
            final(self).wf(),
            final(table).wf(),
            final(self).spec_input() == old(self).spec_input(),
            final(self).spec_cat() == old(self).spec_cat(),
            ({
                let step2 = lex_step(
                    old(self).spec_input(),
                    old(self).spec_cat(),
                    old(self).st(),
                    sol,
                );
                if produced {
                    &&& final(self).st() == step2.st
                    &&& token_matches(*final(token), step2.tok, old(table)@, final(table)@)
                } else {
                    &&& lex_step(old(self).spec_input(), old(self).spec_cat(), final(self).st(), sol)
                        == step2
                    &&& old(self).st().pos < final(self).st().pos
                    &&& final(token).spec_flags() == old(token).spec_flags()
                    &&& final(table)@ == old(table)@
                }
            }),
    {
        let ghost input = self.spec_input();
        let ghost m = self.spec_cat();
        let ghost st0 = self.st();
        let ghost p2v = st0.pos;
        let ghost step2 = lex_step(input, m, st0, sol);

        let mut current_pos = self.next_token_start_pos;

        match self.peek_char(current_pos) {
            None => {
                self.form_token(token, TokenKind::Eof, current_pos);
                proof {
                    assert(self.st() == step2.st);
                    assert(token_matches(*token, step2.tok, old(table)@, table@));
                }
                return true;
            },
            Some(ch) => {
                proof {
                    lemma_decode_bounds(input, p2v);
                }
                let category_code = self.category_code_table.get(ch);
                let ghost d = decode_at(input, p2v).unwrap();

                match category_code {
                    CategoryCode::Escape => {
                        self.lex_control_sequence(token, table, &mut current_pos);
                        proof {
                            assert(self.st() == step2.st);
                            assert(token_matches(*token, step2.tok, old(table)@, table@));
                        }
                        return true;
                    },
                    CategoryCode::BeginGroup => {
                        let end = self.consume_char(&mut current_pos);
                        self.form_token(token, TokenKind::BeginGroup, end);
                        proof {
                            assert(self.st() == step2.st);
                            assert(token_matches(*token, step2.tok, old(table)@, table@));
                        }
                        return true;
                    },
                    CategoryCode::EndGroup => {
                        let end = self.consume_char(&mut current_pos);
                        self.form_token(token, TokenKind::EndGroup, end);
                        proof {
                            assert(self.st() == step2.st);
                            assert(token_matches(*token, step2.tok, old(table)@, table@));
                        }
                        return true;
                    },
                    CategoryCode::MathShift => {
                        let end = self.consume_char(&mut current_pos);
                        self.form_token(token, TokenKind::MathShift, end);
                        proof {
                            assert(self.st() == step2.st);
                            assert(token_matches(*token, step2.tok, old(table)@, table@));
                        }
                        return true;
                    },
                    CategoryCode::AlignmentTab => {
                        let end = self.consume_char(&mut current_pos);
                        self.form_token(token, TokenKind::AlignmentTab, end);
                        proof {
                            assert(self.st() == step2.st);
                            assert(token_matches(*token, step2.tok, old(table)@, table@));
                        }
                        return true;
                    },
                    CategoryCode::EndOfLine => {
                        proof {
                            lemma_flag_bits();
                        }
                        let token_kind = if token.at_start_of_line() {
                            TokenKind::Paragraph
                        } else {
                            TokenKind::Space
                        };
                        let end = self.consume_char(&mut current_pos);
                        self.form_token(token, token_kind, end);

                        if ch != MaybeChar::from_char('\r') && ch != MaybeChar::from_char('\n') {
                            self.finish_line();
                        } else {
                            self.at_start_of_line = true;
                            self.skip_spaces = true;
                        }
                        proof {
                            assert(self.st() == step2.st);
                            assert(token_matches(*token, step2.tok, old(table)@, table@));
                        }
                        return true;
                    },
                    CategoryCode::Parameter => {
                        let end = self.consume_char(&mut current_pos);
                        let mut parameter_data = TokenData::ParameterIndex(None);
                        if current_pos < self.input.len() {
                            let b = self.input[current_pos];
                            if 49 <= b && b <= 57 {
                                parameter_data = TokenData::ParameterIndex(Some(b - 48));
                                current_pos = current_pos + 1;
                            }
                        }
                        self.form_token_with_data(
                            token,
                            TokenKind::Parameter,
                            parameter_data,
                            current_pos,
                        );
                        proof {
                            assert(self.st() == step2.st);
                            assert(token_matches(*token, step2.tok, old(table)@, table@));
                        }
                        return true;
                    },
                    CategoryCode::Superscript => {
                        let end = self.consume_char(&mut current_pos);
                        self.form_token(token, TokenKind::Superscript, end);
                        proof {
                            assert(self.st() == step2.st);
                            assert(token_matches(*token, step2.tok, old(table)@, table@));
                        }
                        return true;
                    },
                    CategoryCode::Subscript => {
                        let end = self.consume_char(&mut current_pos);
                        self.form_token(token, TokenKind::Subscript, end);
                        proof {
                            assert(self.st() == step2.st);
                            assert(token_matches(*token, step2.tok, old(table)@, table@));
                        }
                        return true;
                    },
                    CategoryCode::Ignored => {
                        // Stripping already passed over every ignored
                        // character, so this arm cannot be reached.
                        proof {
                            assert(false);
                        }
                        return true;
                    },
                    CategoryCode::Space => {
                        let produced = self.lex_space_run(token, &mut current_pos, Ghost(sol));
                        return produced;
                    },
                    CategoryCode::Letter => {
                        let end = self.consume_char(&mut current_pos);
                        let payload = match ch.as_char() {
                            Some(c) => c,
                            None => '\u{FFFD}',
                        };
                        self.form_token_with_data(
                            token,
                            TokenKind::Letter,
                            TokenData::Char(payload),
                            end,
                        );
                        proof {
                            assert(payload == char_payload(d.0));
                            assert(self.st() == step2.st);
                            assert(token_matches(*token, step2.tok, old(table)@, table@));
                        }
                        return true;
                    },
                    CategoryCode::Other => {
                        let end = self.consume_char(&mut current_pos);
                        let payload = match ch.as_char() {
                            Some(c) => c,
                            None => '\u{FFFD}',
                        };
                        self.form_token_with_data(
                            token,
                            TokenKind::Other,
                            TokenData::Char(payload),
                            end,
                        );
                        proof {
                            assert(payload == char_payload(d.0));
                            assert(self.st() == step2.st);
                            assert(token_matches(*token, step2.tok, old(table)@, table@));
                        }
                        return true;
                    },
                    CategoryCode::Active => {
                        let name = ch.encode_utf8();
                        let id = table.get_or_insert(name.as_slice());
                        let end = self.consume_char(&mut current_pos);
                        self.form_token_with_data(
                            token,
                            TokenKind::ActiveChar,
                            TokenData::CommandIdentifier(id),
                            end,
                        );
                        proof {
                            assert(self.st() == step2.st);
                            assert(token_matches(*token, step2.tok, old(table)@, table@));
                        }
                        return true;
                    },
                    CategoryCode::Comment => {
                        self.finish_line();
                        proof {
                            lemma_finish_line_bounds(input, p2v);
                            assert(lex_step(input, m, self.st(), sol) == step2);
                        }
                        return false;
                    },
                    CategoryCode::Invalid => {
                        self.consume_char(&mut current_pos);
                        self.next_token_start_pos = current_pos;
                        proof {
                            assert(self.st() == (LexSt {
                                pos: p2v + d.1,
                                at_sol: false,
                                skip: false,
                            }));
                            assert(lex_step(input, m, self.st(), sol) == step2);
                        }
                        return false;
                    },
                }
            },
        }
    }

    /// The space-run path: a tentative `Space` token anchored at the
    /// first space is kept only when the run is followed by something
    /// other than an end of line or the end of input; a swallowed run
    /// reports that the caller must go round again.
    #[verifier::rlimit(100)]
    #[verifier::spinoff_prover]
    fn lex_space_run(
        &mut self,
        token: &mut Token,
        current_pos: &mut usize,
        Ghost(sol): Ghost<bool>,
    ) -> (produced: bool)
        requires
            old(self).wf(),
            old(self).st().at_sol == false,
            old(self).st().skip == false,
            *old(current_pos) == old(self).st().pos,
            decode_at(old(self).spec_input(), old(self).st().pos) matches Some(dd) && cat_of(
                old(self).spec_cat(),
                dd.0,
            ) == CategoryCode::Space,
            old(token).spec_flags().spec_bits() == (if sol {
                1u8
            } else {
                0u8
            }),
        ensures
            final(self).wf(),
            final(self).spec_input() == old(self).spec_input(),
            final(self).spec_cat() == old(self).spec_cat(),
            ({
                let step2 = lex_step(
                    old(self).spec_input(),
                    old(self).spec_cat(),
                    old(self).st(),
                    sol,
                );
                if produced {
                    &&& final(self).st() == step2.st
                    &&& token_matches(*final(token), step2.tok, Seq::<Seq<u8>>::empty(), Seq::<
                        Seq<u8>,
                    >::empty())
                } else {
                    &&& lex_step(old(self).spec_input(), old(self).spec_cat(), final(self).st(), sol)
                        == step2
                    &&& old(self).st().pos < final(self).st().pos
                    &&& final(self).st().at_sol == false
                    &&& final(token).spec_flags() == old(token).spec_flags()
                }
            }),
    {
        let ghost input = self.spec_input();
        let ghost m = self.spec_cat();
        let ghost st0 = self.st();
        let ghost p2v = st0.pos;
        let ghost step2 = lex_step(input, m, st0, sol);
        proof {
            lemma_decode_bounds(input, p2v);
        }

        let end = self.consume_char(current_pos);
        self.form_token(token, TokenKind::Space, end);
        let ghost p3v = *current_pos as int;

        let mut emit_space_token = false;
        loop
            invariant_except_break
                emit_space_token == false,
                skip_spaces_only(input, m, p3v) == skip_spaces_only(input, m, *current_pos as int),
            invariant
                p3v <= *current_pos as int <= input.len(),
                self.spec_input() == input,
                self.spec_cat() == m,
            ensures
                p3v <= *current_pos as int <= input.len(),
                *current_pos as int == skip_spaces_only(input, m, p3v),
                emit_space_token == (match decode_at(input, *current_pos as int) {
                    None => false,
                    Some(d2) => cat_of(m, d2.0) != CategoryCode::EndOfLine,
                }),
            decreases input.len() - *current_pos,
        {
            match self.peek_char(*current_pos) {
                Some(next_ch) => {
                    if self.category_code_table.is_space(next_ch) {
                        proof {
                            lemma_decode_bounds(input, *current_pos as int);
                        }
                        self.consume_char(current_pos);
                    } else {
                        emit_space_token = !self.category_code_table.is_eol(next_ch);
                        proof {
                            assert(skip_spaces_only(input, m, *current_pos as int)
                                == *current_pos as int);
                        }
                        break;
                    }
                },
                None => {
                    proof {
                        assert(skip_spaces_only(input, m, *current_pos as int) == *current_pos
                            as int);
                    }
                    break;
                },
            }
        }

        self.next_token_start_pos = *current_pos;
        if !emit_space_token {
            proof {
                lemma_skip_bounds(input, m, p3v);
                assert(self.st() == (LexSt {
                    pos: *current_pos as int,
                    at_sol: false,
                    skip: false,
                }));
                assert(lex_step(input, m, self.st(), sol) == step2);
            }
            return false;
        }
        proof {
            assert(self.st() == step2.st);
            assert(token.spec_kind() == step2.tok.kind);
            assert(token.spec_location().offset == step2.tok.loc);
            assert(token.spec_length() == step2.tok.len);
            assert(token.spec_data() == TokenData::NoData);
        }
        true
    }

    /// Produces the next token of the stream into `token`, interning
    /// command names through `table`. The token produced, the state
    /// left behind, and the table's growth are exactly those of one
    /// [`lex_step`] of the model.
    #[verifier::rlimit(100)]
    #[verifier::spinoff_prover]
    pub fn lex(&mut self, token: &mut Token, table: &mut CommandIdentifierTable)
        requires
            old(self).wf(),
            old(table).wf(),
        ensures
            final(self).wf(),
            final(table).wf(),
            final(self).spec_input() == old(self).spec_input(),
            final(self).spec_cat() == old(self).spec_cat(),
            ({
                let step = lex_step(
                    old(self).spec_input(),
                    old(self).spec_cat(),
                    old(self).st(),
                    false,
                );
                &&& final(self).st() == step.st
                &&& token_matches(*final(token), step.tok, old(table)@, final(table)@)
            }),
    {
        token.reset();
        let ghost input = self.spec_input();
        let ghost m = self.spec_cat();
        let ghost mut gsol: bool = false;

        loop
            invariant
                self.wf(),
                table.wf(),
                self.spec_input() == input,
                self.spec_cat() == m,
                input == old(self).spec_input(),
                m == old(self).spec_cat(),
                old(self).wf(),
                table@ == old(table)@,
                lex_step(input, m, self.st(), gsol) == lex_step(input, m, old(self).st(), false),
                token.spec_flags().spec_bits() == (if gsol {
                    1u8
                } else {
                    0u8
                }),
            decreases input.len() - self.st().pos,
        {
            proof {
                lemma_flag_bits();
            }
            let ghost st0 = self.st();
            let ghost gsol0 = gsol;

            let mut current_pos = self.next_token_start_pos;

            if self.skip_spaces {
                loop
                    invariant_except_break
                        skip_space_ignored(input, m, st0.pos) == skip_space_ignored(
                            input,
                            m,
                            current_pos as int,
                        ),
                    invariant
                        st0.pos <= current_pos as int <= input.len(),
                        self.spec_input() == input,
                        self.spec_cat() == m,
                    ensures
                        st0.pos <= current_pos as int <= input.len(),
                        current_pos as int == skip_space_ignored(input, m, st0.pos),
                    decreases input.len() - current_pos,
                {
                    match self.peek_char(current_pos) {
                        Some(ch) => {
                            if self.category_code_table.is_space_or_ignored(ch) {
                                proof {
                                    lemma_decode_bounds(input, current_pos as int);
                                }
                                self.consume_char(&mut current_pos);
                            } else {
                                proof {
                                    assert(skip_space_ignored(input, m, current_pos as int)
                                        == current_pos as int);
                                }
                                break;
                            }
                        },
                        None => {
                            proof {
                                assert(skip_space_ignored(input, m, current_pos as int)
                                    == current_pos as int);
                            }
                            break;
                        },
                    }
                }
                self.skip_spaces = false;
            }
            let ghost p1v = current_pos as int;
            proof {
                assert(p1v == (if st0.skip {
                    skip_space_ignored(input, m, st0.pos)
                } else {
                    st0.pos
                }));
            }

            loop
                invariant_except_break
                    skip_ignored(input, m, p1v) == skip_ignored(input, m, current_pos as int),
                invariant
                    p1v <= current_pos as int <= input.len(),
                    self.spec_input() == input,
                    self.spec_cat() == m,
                ensures
                    p1v <= current_pos as int <= input.len(),
                    current_pos as int == skip_ignored(input, m, p1v),
                    decode_at(input, current_pos as int) matches Some(dd) ==> cat_of(m, dd.0)
                        != CategoryCode::Ignored,
                decreases input.len() - current_pos,
            {
                match self.peek_char(current_pos) {
                    Some(ch) => {
                        if self.category_code_table.is_ignored(ch) {
                            proof {
                                lemma_decode_bounds(input, current_pos as int);
                            }
                            self.consume_char(&mut current_pos);
                        } else {
                            proof {
                                assert(skip_ignored(input, m, current_pos as int) == current_pos
                                    as int);
                            }
                            break;
                        }
                    },
                    None => {
                        proof {
                            assert(skip_ignored(input, m, current_pos as int) == current_pos
                                as int);
                        }
                        break;
                    },
                }
            }

            self.next_token_start_pos = current_pos;

            if self.at_start_of_line {
                token.set_flag(TokenFlags::start_of_line());
                self.at_start_of_line = false;
                proof {
                    gsol = true;
                }
            }

            let ghost sol = gsol;
            proof {
                assert(sol == (gsol0 || st0.at_sol));
                lemma_step_committed(input, m, st0, gsol0, current_pos as int);
            }

            let produced = self.lex_dispatch(token, table, Ghost(sol));
            if produced {
                proof {
                    let step = lex_step(input, m, old(self).st(), false);
                    assert(self.st() == step.st);
                    assert(token_matches(*token, step.tok, old(table)@, table@));
                }
                return;
            }
            proof {
                assert(lex_step(input, m, self.st(), sol) == lex_step(
                    input,
                    m,
                    old(self).st(),
                    false,
                ));
                gsol = sol;
            }
        }
    }
}

} // verus!
