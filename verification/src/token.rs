use vstd::prelude::*;
use crate::command_identifier::CommandIdentifier;
use crate::maybe_char::MaybeChar;
use crate::source_location::SourceLocation;
use crate::source_location::SourceRange;

verus! {

/// The kind of a token produced by the lexer.
#[derive(Debug, Clone, Copy, PartialEq, Eq, Structural, Hash)]
pub enum TokenKind {
    /// End of input.
    Eof,
    /// A freshly reset token that has not been filled yet.
    Unknown,
    /// Escape character followed by letters.
    ControlWord,
    /// Escape character followed by a single non-letter.
    ControlSymbol,
    BeginGroup,
    EndGroup,
    MathShift,
    AlignmentTab,
    Parameter,
    Superscript,
    Subscript,
    Space,
    Letter,
    Other,
    ActiveChar,
    /// Inserted for an empty line.
    Paragraph,
}

/// Bitset of token flags.
#[derive(Debug, Clone, Copy, PartialEq, Eq, Structural)]
pub struct TokenFlags(u8);

impl TokenFlags {
    /// The empty flag set.
    pub fn none() -> (r: Self)
        ensures
            r.spec_bits() == 0,
    {
        Self(0)
    }

    /// The flag marking the first token of a line.
    pub fn start_of_line() -> (r: Self)
        ensures
            r.spec_bits() == 1,
    {
        Self(1)
    }

    /// The raw bits held.
    pub closed spec fn spec_bits(self) -> u8 {
        self.0
    }

    /// Whether some bit of `flag` is present in `self`.
    pub open spec fn spec_has(self, flag: Self) -> bool {
        self.spec_bits() & flag.spec_bits() != 0
    }

    pub fn new() -> (r: Self)
        ensures
            r.spec_bits() == 0,
    {
        Self(0)
    }

    pub fn has(self, flag: Self) -> (r: bool)
        ensures
            r == self.spec_has(flag),
    {
        (self.0 & flag.0) != 0
    }

    pub fn set(&mut self, flag: Self)
        ensures
            final(self).spec_bits() == old(self).spec_bits() | flag.spec_bits(),
    {
        self.0 = self.0 | flag.0;
    }

    pub fn clear(&mut self, flag: Self)
        ensures
            final(self).spec_bits() == old(self).spec_bits() & !flag.spec_bits(),
    {
        self.0 = self.0 & !flag.0;
    }
}

impl Default for TokenFlags {
    /// The default flag set is empty.
    fn default() -> (r: Self)
        ensures
            r.spec_bits() == 0,
    {
        Self::new()
    }
}

/// Data carried by a token; the variant in use is keyed by the token's
/// [`TokenKind`].
#[derive(Debug, Clone, Copy, PartialEq, Eq, Structural)]
pub enum TokenData {
    /// No token data: `Eof`, `Unknown`, `BeginGroup`, `EndGroup`,
    /// `MathShift`, `AlignmentTab`, `Superscript`, `Subscript`, `Space`,
    /// `Paragraph`.
    NoData,
    /// Decoded character of a `Letter` or `Other` token. A byte that is
    /// not a valid scalar value appears as U+FFFD.
    Char(char),
    /// Macro parameter index of a `Parameter` token, between 1 and 9;
    /// absent for a bare parameter character.
    ParameterIndex(Option<u8>),
    /// The character after the escape in a `ControlSymbol` token; absent
    /// when the escape character ended the input.
    Symbol(Option<MaybeChar>),
    /// Interned name of a `ControlWord` or `ActiveChar` token.
    CommandIdentifier(CommandIdentifier),
}

/// Which data variants may stand under which token kind. `NoData` is the
/// reset state and is compatible with every kind.
pub open spec fn kind_data_consistent(kind: TokenKind, data: TokenData) -> bool {
    match data {
        TokenData::NoData => true,
        TokenData::Char(_) => kind == TokenKind::Letter || kind == TokenKind::Other,
        TokenData::ParameterIndex(_) => kind == TokenKind::Parameter,
        TokenData::Symbol(_) => kind == TokenKind::ControlSymbol,
        TokenData::CommandIdentifier(_) => kind == TokenKind::ControlWord || kind
            == TokenKind::ActiveChar,
    }
}

/// One token of the input stream. The same record is reset and refilled
/// for each `lex` call, so no token allocates per call.
#[derive(Debug, Clone)]
pub struct Token {
    kind: TokenKind,
    flags: TokenFlags,
    location: SourceLocation,
    /// Number of input bytes accounted for by this token.
    length: u32,
    data: TokenData,
}

impl Token {
    pub closed spec fn spec_kind(self) -> TokenKind {
        self.kind
    }

    pub closed spec fn spec_flags(self) -> TokenFlags {
        self.flags
    }

    pub closed spec fn spec_location(self) -> SourceLocation {
        self.location
    }

    pub closed spec fn spec_length(self) -> u32 {
        self.length
    }

    pub closed spec fn spec_data(self) -> TokenData {
        self.data
    }

    /// Returns the token to its reset state: unknown kind, no flags,
    /// invalid location, zero length, no data.
    pub fn reset(&mut self)
        ensures
            final(self).spec_kind() == TokenKind::Unknown,
            final(self).spec_flags().spec_bits() == 0,
            !final(self).spec_location().spec_is_valid(),
            final(self).spec_length() == 0,
            final(self).spec_data() == TokenData::NoData,
    {
        self.kind = TokenKind::Unknown;
        self.flags = TokenFlags::new();
        self.location = SourceLocation::invalid();
        self.length = 0;
        self.data = TokenData::NoData;
    }

    pub fn kind(&self) -> (r: TokenKind)
        ensures
            r == self.spec_kind(),
    {
        self.kind
    }

    pub fn set_kind(&mut self, kind: TokenKind)
        ensures
            final(self).spec_kind() == kind,
            final(self).spec_flags() == old(self).spec_flags(),
            final(self).spec_location() == old(self).spec_location(),
            final(self).spec_length() == old(self).spec_length(),
            final(self).spec_data() == old(self).spec_data(),
    {
        self.kind = kind;
    }

    pub fn is(&self, kind: TokenKind) -> (r: bool)
        ensures
            r == (self.spec_kind() == kind),
    {
        self.kind == kind
    }

    pub fn is_not(&self, kind: TokenKind) -> (r: bool)
        ensures
            r == (self.spec_kind() != kind),
    {
        self.kind != kind
    }

    /// Whether the token's kind is one of the given kinds.
    pub fn is_one_of(&self, kinds: &[TokenKind]) -> (r: bool)
        ensures
            r == exists|i: int| 0 <= i < kinds@.len() && kinds@[i] == self.spec_kind(),
    {
        let mut i: usize = 0;
        while i < kinds.len()
            invariant
                0 <= i <= kinds@.len(),
                forall|j: int| 0 <= j < i ==> kinds@[j] != self.spec_kind(),
            decreases kinds@.len() - i,
        {
            if *vstd::slice::slice_index_get(kinds, i) == self.kind {
                assert(kinds@[i as int] == self.spec_kind());
                return true;
            }
            i = i + 1;
        }
        false
    }

    pub fn location(&self) -> (r: SourceLocation)
        ensures
            r == self.spec_location(),
    {
        self.location
    }

    pub fn set_location(&mut self, location: SourceLocation)
        ensures
            final(self).spec_location() == location,
            final(self).spec_kind() == old(self).spec_kind(),
            final(self).spec_flags() == old(self).spec_flags(),
            final(self).spec_length() == old(self).spec_length(),
            final(self).spec_data() == old(self).spec_data(),
    {
        self.location = location;
    }

    /// One past the last input byte of the token, when its location is
    /// valid.
    pub fn end_location(&self) -> (r: SourceLocation)
        requires
            self.spec_location().spec_is_valid() ==> self.spec_location().offset
                + self.spec_length() <= u32::MAX,
        ensures
            self.spec_location().spec_is_valid() ==> r == (SourceLocation {
                offset: (self.spec_location().offset + self.spec_length()) as u32,
            }),
            !self.spec_location().spec_is_valid() ==> !r.spec_is_valid(),
    {
        if self.location.is_valid() {
            SourceLocation::new(self.location.offset + self.length)
        } else {
            SourceLocation::invalid()
        }
    }

    /// The span `[location, end_location)` of the token.
    pub fn range(&self) -> (r: SourceRange)
        requires
            self.spec_location().spec_is_valid() ==> self.spec_location().offset
                + self.spec_length() <= u32::MAX,
        ensures
            r.start == self.spec_location(),
            self.spec_location().spec_is_valid() ==> r.end.offset == self.spec_location().offset
                + self.spec_length(),
            !self.spec_location().spec_is_valid() ==> !r.end.spec_is_valid(),
    {
        SourceRange::new(self.location(), self.end_location())
    }

    pub fn length(&self) -> (r: u32)
        ensures
            r == self.spec_length(),
    {
        self.length
    }

    pub fn set_length(&mut self, length: u32)
        ensures
            final(self).spec_length() == length,
            final(self).spec_kind() == old(self).spec_kind(),
            final(self).spec_flags() == old(self).spec_flags(),
            final(self).spec_location() == old(self).spec_location(),
            final(self).spec_data() == old(self).spec_data(),
    {
        self.length = length;
    }

    pub fn flags(&self) -> (r: TokenFlags)
        ensures
            r == self.spec_flags(),
    {
        self.flags
    }

    pub fn set_flag(&mut self, flag: TokenFlags)
        ensures
            final(self).spec_flags().spec_bits() == old(self).spec_flags().spec_bits()
                | flag.spec_bits(),
            final(self).spec_kind() == old(self).spec_kind(),
            final(self).spec_location() == old(self).spec_location(),
            final(self).spec_length() == old(self).spec_length(),
            final(self).spec_data() == old(self).spec_data(),
    {
        self.flags.set(flag);
    }

    pub fn clear_flag(&mut self, flag: TokenFlags)
        ensures
            final(self).spec_flags().spec_bits() == old(self).spec_flags().spec_bits()
                & !flag.spec_bits(),
            final(self).spec_kind() == old(self).spec_kind(),
            final(self).spec_location() == old(self).spec_location(),
            final(self).spec_length() == old(self).spec_length(),
            final(self).spec_data() == old(self).spec_data(),
    {
        self.flags.clear(flag);
    }

    pub fn has_flag(&self, flag: TokenFlags) -> (r: bool)
        ensures
            r == self.spec_flags().spec_has(flag),
    {
        self.flags.has(flag)
    }

    /// The decoded character of a `Letter` or `Other` token.
    pub fn char(&self) -> (r: char)
        requires
            self.spec_kind() == TokenKind::Letter || self.spec_kind() == TokenKind::Other,
            self.spec_data() is Char,
        ensures
            self.spec_data() == TokenData::Char(r),
    {
        match &self.data {
            TokenData::Char(ch) => *ch,
            _ => {
                proof {
                    assert(false);
                }
                vstd::pervasive::unreached()
            },
        }
    }

    /// The parameter index of a `Parameter` token.
    pub fn parameter_index(&self) -> (r: Option<u8>)
        requires
            self.spec_kind() == TokenKind::Parameter,
            self.spec_data() is ParameterIndex,
        ensures
            self.spec_data() == TokenData::ParameterIndex(r),
    {
        match &self.data {
            TokenData::ParameterIndex(index) => *index,
            _ => {
                proof {
                    assert(false);
                }
                vstd::pervasive::unreached()
            },
        }
    }

    /// The symbol character of a `ControlSymbol` token.
    pub fn symbol(&self) -> (r: Option<MaybeChar>)
        requires
            self.spec_kind() == TokenKind::ControlSymbol,
            self.spec_data() is Symbol,
        ensures
            self.spec_data() == TokenData::Symbol(r),
    {
        match &self.data {
            TokenData::Symbol(maybe_char) => *maybe_char,
            _ => {
                proof {
                    assert(false);
                }
                vstd::pervasive::unreached()
            },
        }
    }

    /// The interned identifier of a `ControlWord` or `ActiveChar` token.
    pub fn command_identifier(&self) -> (r: CommandIdentifier)
        requires
            self.spec_kind() == TokenKind::ControlWord || self.spec_kind()
                == TokenKind::ActiveChar,
            self.spec_data() is CommandIdentifier,
        ensures
            self.spec_data() == TokenData::CommandIdentifier(r),
    {
        match &self.data {
            TokenData::CommandIdentifier(id) => *id,
            _ => {
                proof {
                    assert(false);
                }
                vstd::pervasive::unreached()
            },
        }
    }

    /// Stores data compatible with the token's current kind.
    pub fn set_token_data(&mut self, data: TokenData)
        requires
            kind_data_consistent(old(self).spec_kind(), data),
        ensures
            final(self).spec_data() == data,
            final(self).spec_kind() == old(self).spec_kind(),
            final(self).spec_flags() == old(self).spec_flags(),
            final(self).spec_location() == old(self).spec_location(),
            final(self).spec_length() == old(self).spec_length(),
    {
        self.data = data;
    }

    /// Whether this token was the first of its line.
    pub fn at_start_of_line(&self) -> (r: bool)
        ensures
            r == (self.spec_flags().spec_bits() & 1 != 0),
    {
        self.has_flag(TokenFlags::start_of_line())
    }
}

impl Default for Token {
    /// A default token is in the reset state.
    fn default() -> (r: Self)
        ensures
            r.spec_kind() == TokenKind::Unknown,
            r.spec_flags().spec_bits() == 0,
            !r.spec_location().spec_is_valid(),
            r.spec_length() == 0,
            r.spec_data() == TokenData::NoData,
    {
        Self {
            kind: TokenKind::Unknown,
            flags: TokenFlags::new(),
            location: SourceLocation::invalid(),
            length: 0,
            data: TokenData::NoData,
        }
    }
}

} // verus!
