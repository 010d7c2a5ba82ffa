use vstd::prelude::*;
use vstd::utf8::encode_scalar;

verus! {

/// A value that is either a valid Unicode scalar value or an arbitrary
/// single byte that could not be decoded as Unicode.
///
/// The distinction matters because category-code keys include both: a
/// category code can be assigned to a raw byte that never forms a valid
/// code point.
#[derive(Debug, Clone, Copy, PartialEq, Eq, Structural, Hash)]
pub enum MaybeChar {
    Char(char),
    NonCharByte(u8),
}

/// Enum view of [`MaybeChar`] for pattern-matching at call sites that
/// want to name the packing explicitly.
#[derive(Debug, Clone, Copy, PartialEq, Eq, Structural)]
pub enum MaybeCharEnumView {
    Char(char),
    NonCharByte(u8),
}

impl MaybeChar {
    /// Tag bit distinguishing non-character bytes in the packed `u32`
    /// encoding returned by [`MaybeChar::raw`]. Unicode scalar values
    /// stay below this bit.
    pub const NON_CHAR_BYTE_TAG: u32 = 0x1000_0000;

    pub fn from_char(c: char) -> (r: Self)
        ensures
            r == MaybeChar::Char(c),
    {
        MaybeChar::Char(c)
    }

    /// Builds a [`MaybeChar`] for a non-Unicode byte. Non-Unicode input
    /// is always handled at byte level.
    pub fn from_non_char_byte(b: u8) -> (r: Self)
        ensures
            r == MaybeChar::NonCharByte(b),
    {
        MaybeChar::NonCharByte(b)
    }

    pub fn is_char(self) -> (r: bool)
        ensures
            r == (self is Char),
    {
        match self {
            MaybeChar::Char(_) => true,
            MaybeChar::NonCharByte(_) => false,
        }
    }

    pub fn is_non_char_byte(self) -> (r: bool)
        ensures
            r == (self is NonCharByte),
    {
        match self {
            MaybeChar::Char(_) => false,
            MaybeChar::NonCharByte(_) => true,
        }
    }

    pub fn enum_view(self) -> (r: MaybeCharEnumView)
        ensures
            self is Char ==> r == MaybeCharEnumView::Char(self->Char_0),
            self is NonCharByte ==> r == MaybeCharEnumView::NonCharByte(self->NonCharByte_0),
    {
        match self {
            MaybeChar::Char(c) => MaybeCharEnumView::Char(c),
            MaybeChar::NonCharByte(b) => MaybeCharEnumView::NonCharByte(b),
        }
    }

    /// The Unicode scalar value held, if any.
    pub fn as_char(self) -> (r: Option<char>)
        ensures
            self is Char ==> r == Some(self->Char_0),
            self is NonCharByte ==> r is None,
    {
        match self {
            MaybeChar::Char(c) => Some(c),
            MaybeChar::NonCharByte(_) => None,
        }
    }

    /// Packed `u32` form: a scalar value keeps its code point, a
    /// non-character byte carries [`MaybeChar::NON_CHAR_BYTE_TAG`].
    /// The packing is injective ([`lemma_raw_injective`]).
    pub open spec fn spec_raw(self) -> u32 {
        match self {
            MaybeChar::Char(c) => c as u32,
            MaybeChar::NonCharByte(b) => (0x1000_0000 + b) as u32,
        }
    }

    pub fn raw(self) -> (r: u32)
        ensures
            r == self.spec_raw(),
    {
        match self {
            MaybeChar::Char(c) => c as u32,
            MaybeChar::NonCharByte(b) => 0x1000_0000u32 + (b as u32),
        }
    }

    /// The UTF-8 encoding of a scalar value, or the raw byte itself for
    /// a non-character byte.
    pub open spec fn spec_encoding(self) -> Seq<u8> {
        match self {
            MaybeChar::Char(c) => encode_scalar(c as u32),
            MaybeChar::NonCharByte(b) => seq![b],
        }
    }

    /// Encodes this character as the byte sequence that identifies it in
    /// interned command names: UTF-8 for a scalar value, the single raw
    /// byte otherwise.
    pub fn encode_utf8(self) -> (r: Vec<u8>)
        ensures
            r@ == self.spec_encoding(),
            1 <= r@.len() <= 4,
    {
        let mut out: Vec<u8> = Vec::new();
        match self {
            MaybeChar::Char(c) => {
                let v: u32 = c as u32;
                if v <= 0x7F {
                    out.push((v & 0x7F) as u8);
                } else if v <= 0x7FF {
                    out.push(0xC0 | ((v >> 6) & 0x1F) as u8);
                    out.push(0x80 | (v & 0x3F) as u8);
                } else if v <= 0xFFFF {
                    out.push(0xE0 | ((v >> 12) & 0x0F) as u8);
                    out.push(0x80 | ((v >> 6) & 0x3F) as u8);
                    out.push(0x80 | (v & 0x3F) as u8);
                } else {
                    out.push(0xF0 | ((v >> 18) & 0x7) as u8);
                    out.push(0x80 | ((v >> 12) & 0x3F) as u8);
                    out.push(0x80 | ((v >> 6) & 0x3F) as u8);
                    out.push(0x80 | (v & 0x3F) as u8);
                }
                proof {
                    assert(out@ =~= self.spec_encoding());
                }
            },
            MaybeChar::NonCharByte(b) => {
                out.push(b);
                proof {
                    assert(out@ =~= self.spec_encoding());
                }
            },
        }
        out
    }
}

/// The packed `u32` form of two values coincides only when the values do:
/// scalar values stay below the tag bit, tagged bytes above it.
pub proof fn lemma_raw_injective(a: MaybeChar, b: MaybeChar)
    ensures
        a.spec_raw() == b.spec_raw() ==> a == b,
{
}

} // verus!
