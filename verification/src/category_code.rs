use vstd::prelude::*;
use std::collections::HashMap;
use crate::maybe_char::MaybeChar;
use crate::maybe_char::lemma_raw_injective;

verus! {

broadcast use vstd::std_specs::hash::group_hash_axioms, vstd::map::group_map_axioms;

/// The sixteen Knuth category codes. The category of a character decides
/// how the lexer treats it.
#[derive(Debug, Clone, Copy, PartialEq, Eq, Structural, Hash)]
pub enum CategoryCode {
    Escape,
    BeginGroup,
    EndGroup,
    MathShift,
    AlignmentTab,
    EndOfLine,
    Parameter,
    Superscript,
    Subscript,
    Ignored,
    Space,
    Letter,
    Other,
    Active,
    Comment,
    Invalid,
}

impl CategoryCode {
    /// The conventional numeric code, 0 through 15 in declaration order.
    pub open spec fn spec_as_u8(self) -> u8 {
        match self {
            CategoryCode::Escape => 0,
            CategoryCode::BeginGroup => 1,
            CategoryCode::EndGroup => 2,
            CategoryCode::MathShift => 3,
            CategoryCode::AlignmentTab => 4,
            CategoryCode::EndOfLine => 5,
            CategoryCode::Parameter => 6,
            CategoryCode::Superscript => 7,
            CategoryCode::Subscript => 8,
            CategoryCode::Ignored => 9,
            CategoryCode::Space => 10,
            CategoryCode::Letter => 11,
            CategoryCode::Other => 12,
            CategoryCode::Active => 13,
            CategoryCode::Comment => 14,
            CategoryCode::Invalid => 15,
        }
    }

    pub fn as_u8(self) -> (r: u8)
        ensures
            r == self.spec_as_u8(),
    {
        match self {
            CategoryCode::Escape => 0,
            CategoryCode::BeginGroup => 1,
            CategoryCode::EndGroup => 2,
            CategoryCode::MathShift => 3,
            CategoryCode::AlignmentTab => 4,
            CategoryCode::EndOfLine => 5,
            CategoryCode::Parameter => 6,
            CategoryCode::Superscript => 7,
            CategoryCode::Subscript => 8,
            CategoryCode::Ignored => 9,
            CategoryCode::Space => 10,
            CategoryCode::Letter => 11,
            CategoryCode::Other => 12,
            CategoryCode::Active => 13,
            CategoryCode::Comment => 14,
            CategoryCode::Invalid => 15,
        }
    }
}

/// Category lookup in a raw-keyed map: any key the table does not hold
/// is `Other`.
pub open spec fn cat_raw(m: Map<u32, CategoryCode>, k: u32) -> CategoryCode {
    if m.contains_key(k) {
        m[k]
    } else {
        CategoryCode::Other
    }
}

/// The plain-TeX default category of a character, keyed by the packed
/// `u32` form of [`MaybeChar`].
pub open spec fn default_cat_raw(k: u32) -> CategoryCode {
    if k == '\\' as u32 {
        CategoryCode::Escape
    } else if k == '{' as u32 {
        CategoryCode::BeginGroup
    } else if k == '}' as u32 {
        CategoryCode::EndGroup
    } else if k == '$' as u32 {
        CategoryCode::MathShift
    } else if k == '&' as u32 {
        CategoryCode::AlignmentTab
    } else if k == '\r' as u32 || k == '\n' as u32 {
        CategoryCode::EndOfLine
    } else if k == '#' as u32 {
        CategoryCode::Parameter
    } else if k == '^' as u32 {
        CategoryCode::Superscript
    } else if k == '_' as u32 {
        CategoryCode::Subscript
    } else if k == 0 || k == 127 {
        CategoryCode::Ignored
    } else if k == ' ' as u32 || k == '\t' as u32 {
        CategoryCode::Space
    } else if ('a' as u32 <= k && k <= 'z' as u32) || ('A' as u32 <= k && k <= 'Z' as u32) {
        CategoryCode::Letter
    } else if k == '~' as u32 {
        CategoryCode::Active
    } else if k == '%' as u32 {
        CategoryCode::Comment
    } else {
        CategoryCode::Other
    }
}

/// The plain-TeX default category of a character.
pub open spec fn default_category_code(mc: MaybeChar) -> CategoryCode {
    default_cat_raw(mc.spec_raw())
}

/// Mapping from input characters to category codes. Built with plain-TeX
/// defaults; any character not explicitly assigned is `Other`. Owned by
/// its lexer, so runtime category changes stay local to one input.
pub struct CategoryCodeTable {
    table: HashMap<u32, CategoryCode>,
}

impl View for CategoryCodeTable {
    type V = Map<u32, CategoryCode>;

    closed spec fn view(&self) -> Map<u32, CategoryCode> {
        self.table@
    }
}

impl CategoryCodeTable {
    /// The category this table assigns to a character.
    pub open spec fn spec_get(self, mc: MaybeChar) -> CategoryCode {
        cat_raw(self@, mc.spec_raw())
    }

    /// Builds the table of plain-TeX defaults.
    pub fn new() -> (r: Self)
        ensures
            forall|k: u32| #[trigger] cat_raw(r@, k) == default_cat_raw(k),
            forall|mc: MaybeChar| #[trigger] r.spec_get(mc) == default_category_code(mc),
    {
        let mut table: HashMap<u32, CategoryCode> = HashMap::new();

        table.insert('\\' as u32, CategoryCode::Escape);
        table.insert('{' as u32, CategoryCode::BeginGroup);
        table.insert('}' as u32, CategoryCode::EndGroup);
        table.insert('$' as u32, CategoryCode::MathShift);
        table.insert('&' as u32, CategoryCode::AlignmentTab);
        table.insert('\r' as u32, CategoryCode::EndOfLine);
        table.insert('\n' as u32, CategoryCode::EndOfLine);
        table.insert('#' as u32, CategoryCode::Parameter);
        table.insert('^' as u32, CategoryCode::Superscript);
        table.insert('_' as u32, CategoryCode::Subscript);
        table.insert(0u32, CategoryCode::Ignored);
        table.insert(127u32, CategoryCode::Ignored);
        table.insert(' ' as u32, CategoryCode::Space);
        table.insert('\t' as u32, CategoryCode::Space);
        table.insert('~' as u32, CategoryCode::Active);
        table.insert('%' as u32, CategoryCode::Comment);

        let ghost base = table@;

        let mut b: u8 = 97;
        while b <= 122
            invariant
                97 <= b <= 123,
                forall|k: u32| 97 <= k < b as u32 ==> #[trigger] cat_raw(table@, k)
                    == CategoryCode::Letter,
                forall|k: u32| !(97 <= k < b as u32) ==> #[trigger] cat_raw(table@, k) == cat_raw(base, k),
            decreases 123 - b,
        {
            let ghost pre = table@;
            table.insert(b as u32, CategoryCode::Letter);
            proof {
                assert forall|k: u32| 97 <= k < b as u32 + 1 implies #[trigger] cat_raw(table@, k)
                    == CategoryCode::Letter by {
                    if k != b as u32 {
                        assert(cat_raw(pre, k) == CategoryCode::Letter);
                    }
                }
                assert forall|k: u32| !(97 <= k < b as u32 + 1) implies #[trigger] cat_raw(
                    table@,
                    k,
                ) == cat_raw(base, k) by {
                    assert(cat_raw(pre, k) == cat_raw(base, k));
                }
            }
            b = b + 1;
        }

        let ghost lower = table@;

        let mut b: u8 = 65;
        while b <= 90
            invariant
                65 <= b <= 91,
                forall|k: u32| 65 <= k < b as u32 ==> #[trigger] cat_raw(table@, k)
                    == CategoryCode::Letter,
                forall|k: u32| !(65 <= k < b as u32) ==> #[trigger] cat_raw(table@, k) == cat_raw(
                    lower,
                    k,
                ),
            decreases 91 - b,
        {
            let ghost pre = table@;
            table.insert(b as u32, CategoryCode::Letter);
            proof {
                assert forall|k: u32| 65 <= k < b as u32 + 1 implies #[trigger] cat_raw(table@, k)
                    == CategoryCode::Letter by {
                    if k != b as u32 {
                        assert(cat_raw(pre, k) == CategoryCode::Letter);
                    }
                }
                assert forall|k: u32| !(65 <= k < b as u32 + 1) implies #[trigger] cat_raw(
                    table@,
                    k,
                ) == cat_raw(lower, k) by {
                    assert(cat_raw(pre, k) == cat_raw(lower, k));
                }
            }
            b = b + 1;
        }

        Self { table }
    }

    pub fn get(&self, maybe_char: MaybeChar) -> (r: CategoryCode)
        ensures
            r == self.spec_get(maybe_char),
    {
        let key = maybe_char.raw();
        match self.table.get(&key) {
            Some(c) => *c,
            None => CategoryCode::Other,
        }
    }

    /// Reassigns one character's category; every other character keeps
    /// its category.
    pub fn set(&mut self, maybe_char: MaybeChar, category_code: CategoryCode)
        ensures
            final(self)@ == old(self)@.insert(maybe_char.spec_raw(), category_code),
            final(self).spec_get(maybe_char) == category_code,
            forall|x: MaybeChar| x != maybe_char ==> #[trigger] final(self).spec_get(x)
                == old(self).spec_get(x),
    {
        let key = maybe_char.raw();
        self.table.insert(key, category_code);
        proof {
            assert forall|x: MaybeChar| x != maybe_char implies #[trigger] self.spec_get(x)
                == old(self).spec_get(x) by {
                lemma_raw_injective(x, maybe_char);
            }
        }
    }

    pub fn is_letter(&self, maybe_char: MaybeChar) -> (r: bool)
        ensures
            r == (self.spec_get(maybe_char) == CategoryCode::Letter),
    {
        self.get(maybe_char) == CategoryCode::Letter
    }

    pub fn is_space(&self, maybe_char: MaybeChar) -> (r: bool)
        ensures
            r == (self.spec_get(maybe_char) == CategoryCode::Space),
    {
        self.get(maybe_char) == CategoryCode::Space
    }

    pub fn is_ignored(&self, maybe_char: MaybeChar) -> (r: bool)
        ensures
            r == (self.spec_get(maybe_char) == CategoryCode::Ignored),
    {
        self.get(maybe_char) == CategoryCode::Ignored
    }

    pub fn is_space_or_ignored(&self, maybe_char: MaybeChar) -> (r: bool)
        ensures
            r == (self.spec_get(maybe_char) == CategoryCode::Space || self.spec_get(maybe_char)
                == CategoryCode::Ignored),
    {
        let c = self.get(maybe_char);
        c == CategoryCode::Space || c == CategoryCode::Ignored
    }

    pub fn is_escape(&self, maybe_char: MaybeChar) -> (r: bool)
        ensures
            r == (self.spec_get(maybe_char) == CategoryCode::Escape),
    {
        self.get(maybe_char) == CategoryCode::Escape
    }

    pub fn is_eol(&self, maybe_char: MaybeChar) -> (r: bool)
        ensures
            r == (self.spec_get(maybe_char) == CategoryCode::EndOfLine),
    {
        self.get(maybe_char) == CategoryCode::EndOfLine
    }
}

impl Default for CategoryCodeTable {
    /// The default table holds the plain-TeX category codes.
    fn default() -> (r: Self)
        ensures
            forall|mc: MaybeChar| #[trigger] r.spec_get(mc) == default_category_code(mc),
    {
        Self::new()
    }
}

} // verus!
