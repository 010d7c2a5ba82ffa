use vstd::prelude::*;

verus! {

/// Compact byte offset into the global source space shared by all loaded
/// files. The sentinel value `u32::MAX` means "invalid".
#[derive(Debug, Clone, Copy, PartialEq, Eq, Structural)]
pub struct SourceLocation {
    /// Byte offset in the global source space. `u32` keeps the location
    /// small enough to attach to every token; it limits one session to
    /// 4 GiB of aggregate input.
    pub offset: u32,
}

impl SourceLocation {
    pub fn new(offset: u32) -> (r: Self)
        ensures
            r.offset == offset,
    {
        Self { offset }
    }

    pub fn invalid() -> (r: Self)
        ensures
            r.offset == u32::MAX,
            !r.spec_is_valid(),
    {
        Self::new(u32::MAX)
    }

    /// A location is valid unless it holds the sentinel offset.
    pub open spec fn spec_is_valid(self) -> bool {
        self.offset != u32::MAX
    }

    pub fn is_valid(self) -> (r: bool)
        ensures
            r == self.spec_is_valid(),
    {
        self.offset != u32::MAX
    }

    pub fn offset(self) -> (r: u32)
        ensures
            r == self.offset,
    {
        self.offset
    }
}

impl Default for SourceLocation {
    /// The default location is the invalid sentinel.
    fn default() -> (r: Self)
        ensures
            !r.spec_is_valid(),
            r.offset == u32::MAX,
    {
        Self::invalid()
    }
}

/// Half-open range `[start, end)` of global source locations.
#[derive(Debug, Clone, Copy, PartialEq, Eq, Structural)]
pub struct SourceRange {
    pub start: SourceLocation,
    pub end: SourceLocation,
}

impl SourceRange {
    pub fn new(start: SourceLocation, end: SourceLocation) -> (r: Self)
        ensures
            r.start == start,
            r.end == end,
    {
        Self { start, end }
    }

    pub fn invalid() -> (r: Self)
        ensures
            !r.spec_is_valid(),
            r.start.offset == u32::MAX,
            r.end.offset == u32::MAX,
    {
        Self::new(SourceLocation::invalid(), SourceLocation::invalid())
    }

    /// A range is valid when both of its endpoints are.
    pub open spec fn spec_is_valid(self) -> bool {
        self.start.spec_is_valid() && self.end.spec_is_valid()
    }

    pub fn is_valid(self) -> (r: bool)
        ensures
            r == self.spec_is_valid(),
    {
        self.start.is_valid() && self.end.is_valid()
    }

    /// Number of bytes covered: `end - start` for a valid range, clamped
    /// to zero when `end` lies before `start`; zero for an invalid range.
    pub open spec fn spec_length(self) -> u32 {
        if self.spec_is_valid() {
            if self.end.offset >= self.start.offset {
                (self.end.offset - self.start.offset) as u32
            } else {
                0
            }
        } else {
            0
        }
    }

    pub fn length(self) -> (r: u32)
        ensures
            r == self.spec_length(),
    {
        if self.is_valid() {
            if self.end.offset >= self.start.offset {
                self.end.offset - self.start.offset
            } else {
                0
            }
        } else {
            0
        }
    }
}

impl Default for SourceRange {
    /// The default range is the invalid sentinel range.
    fn default() -> (r: Self)
        ensures
            !r.spec_is_valid(),
            r.spec_length() == 0,
    {
        Self::invalid()
    }
}

} // verus!
