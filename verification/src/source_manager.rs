use vstd::prelude::*;
use vstd::slice::slice_subrange;
use crate::memory_buffer::MemoryBuffer;
use crate::source_location::SourceLocation;

verus! {

/// Opaque identifier of a file registered with a [`SourceManager`].
/// `u32::MAX` is the "invalid" sentinel; valid ids are assigned
/// consecutively from zero.
#[derive(Debug, Clone, Copy, PartialEq, Eq, Structural, Hash)]
pub struct FileId(u32);

impl FileId {
    /// The numeric value of this id.
    pub closed spec fn spec_as_u32(self) -> u32 {
        self.0
    }

    pub fn new(id: u32) -> (r: Self)
        ensures
            r.spec_as_u32() == id,
    {
        Self(id)
    }

    pub fn invalid() -> (r: Self)
        ensures
            r.spec_as_u32() == u32::MAX,
            !r.spec_is_valid(),
    {
        Self(u32::MAX)
    }

    pub open spec fn spec_is_valid(self) -> bool {
        self.spec_as_u32() != u32::MAX
    }

    pub fn is_valid(self) -> (r: bool)
        ensures
            r == self.spec_is_valid(),
    {
        self.0 != u32::MAX
    }

    pub fn as_u32(self) -> (r: u32)
        ensures
            r == self.spec_as_u32(),
    {
        self.0
    }
}

/// A loaded file: its path, its bytes, and the span it occupies in the
/// global source-offset space.
#[derive(Debug, Clone, PartialEq)]
pub struct FileEntry {
    /// The file path.
    pub path: String,
    /// The buffer containing the file contents.
    pub buffer: MemoryBuffer,
    /// Starting offset in the global source location space.
    pub start_offset: u32,
    /// Size of the file in bytes.
    pub size: u32,
}

impl FileEntry {
    /// The entry's span fits the 32-bit global offset space and its
    /// recorded size is its buffer's size.
    pub open spec fn wf(self) -> bool {
        &&& self.start_offset + self.size <= u32::MAX
        &&& self.size == self.buffer@.len()
    }

    pub fn new(path: String, buffer: MemoryBuffer, start_offset: u32) -> (r: Self)
        requires
            start_offset + buffer@.len() <= u32::MAX,
        ensures
            r.path@ == path@,
            r.buffer == buffer,
            r.start_offset == start_offset,
            r.size == buffer@.len(),
            r.wf(),
    {
        let size = buffer.size() as u32;
        Self { path, buffer, start_offset, size }
    }

    /// End of this file's span in the global offset space.
    pub fn end_offset(&self) -> (r: u32)
        requires
            self.start_offset + self.size <= u32::MAX,
        ensures
            r == self.start_offset + self.size,
    {
        self.start_offset + self.size
    }

    /// Whether a global source location falls inside this file's span.
    pub fn contains_location(&self, loc: SourceLocation) -> (r: bool)
        requires
            self.start_offset + self.size <= u32::MAX,
        ensures
            r == (self.start_offset <= loc.offset && loc.offset < self.start_offset + self.size),
    {
        let offset = loc.offset();
        offset >= self.start_offset && offset < self.end_offset()
    }

    /// Converts a global location to a local offset within this file,
    /// when the location falls inside the file's span.
    pub fn location_to_offset(&self, loc: SourceLocation) -> (r: Option<u32>)
        requires
            self.start_offset + self.size <= u32::MAX,
        ensures
            (self.start_offset <= loc.offset && loc.offset < self.start_offset + self.size)
                ==> r == Some((loc.offset - self.start_offset) as u32),
            !(self.start_offset <= loc.offset && loc.offset < self.start_offset + self.size)
                ==> r is None,
    {
        if self.contains_location(loc) {
            Some(loc.offset() - self.start_offset)
        } else {
            None
        }
    }

    /// Converts a local offset within this file to a global location,
    /// when the offset does not pass the end of the file.
    pub fn offset_to_location(&self, offset: u32) -> (r: Option<SourceLocation>)
        requires
            self.start_offset + self.size <= u32::MAX,
        ensures
            offset <= self.size ==> r == Some(
                SourceLocation { offset: (self.start_offset + offset) as u32 },
            ),
            offset > self.size ==> r is None,
    {
        if offset <= self.size {
            Some(SourceLocation::new(self.start_offset + offset))
        } else {
            None
        }
    }
}

/// Registers buffers as files and assigns each a span in a flat global
/// offset space: files occupy disjoint adjacent spans in order of
/// insertion, so one `u32` offset names a position in one loaded file.
#[derive(Debug)]
pub struct SourceManager {
    files: Vec<FileEntry>,
    next_source_offset: u32,
}

impl SourceManager {
    /// The registered entries, in insertion order. A file's id is its
    /// index here.
    pub closed spec fn spec_files(self) -> Seq<FileEntry> {
        self.files@
    }

    /// Invariant: entries are adjacent in the global offset space,
    /// starting at zero, and the watermark sits past the last entry.
    pub open spec fn wf(self) -> bool {
        &&& forall|i: int| 0 <= i < self.spec_files().len() ==> (
            #[trigger] self.spec_files()[i]).wf()
        &&& forall|i: int| 0 <= i < self.spec_files().len() - 1 ==> (
            #[trigger] self.spec_files()[i + 1]).start_offset == self.spec_files()[i].start_offset
            + self.spec_files()[i].size
        &&& (self.spec_files().len() > 0 ==> self.spec_files()[0].start_offset == 0)
        &&& (if self.spec_files().len() == 0 {
            self.spec_watermark() == 0
        } else {
            self.spec_watermark() == self.spec_files().last().start_offset
                + self.spec_files().last().size
        })
    }

    /// Next available offset in the global source location space.
    pub closed spec fn spec_watermark(self) -> u32 {
        self.next_source_offset
    }

    pub fn new() -> (r: Self)
        ensures
            r.spec_files().len() == 0,
            r.wf(),
    {
        Self { files: Vec::new(), next_source_offset: 0 }
    }

    /// Registers a buffer as a file: the file is placed at the current
    /// watermark, the watermark advances by its size, and the next
    /// consecutive id names it. Nothing else changes.
    pub fn add_buffer(&mut self, buffer: MemoryBuffer, path: Option<String>) -> (r: FileId)
        requires
            old(self).wf(),
            old(self).spec_watermark() + buffer@.len() <= u32::MAX,
            old(self).spec_files().len() < u32::MAX,
        ensures
            final(self).wf(),
            r.spec_as_u32() == old(self).spec_files().len(),
            r.spec_is_valid(),
            final(self).spec_files().len() == old(self).spec_files().len() + 1,
            final(self).spec_files().subrange(0, old(self).spec_files().len() as int) == old(
                self,
            ).spec_files(),
            ({
                let e = final(self).spec_files().last();
                &&& e.buffer == buffer
                &&& e.start_offset == old(self).spec_watermark()
                &&& e.size == buffer@.len()
                &&& (path matches Some(p) ==> e.path@ == p@)
                &&& (path is None ==> e.path@ == buffer.spec_name())
            }),
            final(self).spec_watermark() == old(self).spec_watermark() + buffer@.len(),
    {
        let id = FileId::new(self.files.len() as u32);
        let path = match path {
            Some(p) => p,
            None => buffer.buffer_name().to_owned(),
        };
        let entry = FileEntry::new(path, buffer, self.next_source_offset);
        self.next_source_offset = entry.end_offset();
        let ghost pre = self.files@;
        self.files.push(entry);
        proof {
            assert(self.files@.subrange(0, pre.len() as int) =~= pre);
        }
        id
    }

    /// The entry registered under a file id, when there is one.
    pub fn get_file(&self, file_id: FileId) -> (r: Option<&FileEntry>)
        ensures
            (file_id.spec_is_valid() && file_id.spec_as_u32() < self.spec_files().len())
                ==> r == Some(&self.spec_files()[file_id.spec_as_u32() as int]),
            !(file_id.spec_is_valid() && file_id.spec_as_u32() < self.spec_files().len())
                ==> r is None,
    {
        let idx = file_id.as_u32() as usize;
        if file_id.is_valid() && idx < self.files.len() {
            Some(&self.files[idx])
        } else {
            None
        }
    }

    /// The buffer of a registered file.
    pub fn get_buffer_data(&self, file_id: FileId) -> (r: Option<&MemoryBuffer>)
        ensures
            (file_id.spec_is_valid() && file_id.spec_as_u32() < self.spec_files().len())
                ==> r == Some(&self.spec_files()[file_id.spec_as_u32() as int].buffer),
            !(file_id.spec_is_valid() && file_id.spec_as_u32() < self.spec_files().len())
                ==> r is None,
    {
        match self.get_file(file_id) {
            Some(entry) => Some(&entry.buffer),
            None => None,
        }
    }

    /// The path of a registered file.
    pub fn get_file_path(&self, file_id: FileId) -> (r: Option<&String>)
        ensures
            (file_id.spec_is_valid() && file_id.spec_as_u32() < self.spec_files().len())
                ==> r == Some(&self.spec_files()[file_id.spec_as_u32() as int].path),
            !(file_id.spec_is_valid() && file_id.spec_as_u32() < self.spec_files().len())
                ==> r is None,
    {
        match self.get_file(file_id) {
            Some(entry) => Some(&entry.path),
            None => None,
        }
    }

    /// A slice of a registered file's bytes: `len` bytes starting at the
    /// local offset `start`, when that range lies inside the buffer.
    pub fn get_buffer_slice(&self, file_id: FileId, start: u32, len: u32) -> (r: Option<&[u8]>)
        ensures
            ({
                let valid = file_id.spec_is_valid() && file_id.spec_as_u32()
                    < self.spec_files().len();
                if valid {
                    let b = self.spec_files()[file_id.spec_as_u32() as int].buffer;
                    if start + len <= b@.len() {
                        r matches Some(s) && s@ == b@.subrange(
                            start as int,
                            start as int + len as int,
                        )
                    } else {
                        r is None
                    }
                } else {
                    r is None
                }
            }),
    {
        match self.get_file(file_id) {
            Some(entry) => {
                let data = entry.buffer.data();
                let start_idx = start as usize;
                let len_idx = len as usize;
                if start_idx <= data.len() && len_idx <= data.len() - start_idx {
                    Some(slice_subrange(data, start_idx, start_idx + len_idx))
                } else {
                    None
                }
            },
            None => None,
        }
    }

    /// Finds the file whose span in the global offset space contains a
    /// source location, if any. Spans are disjoint, so at most one file
    /// contains it.
    pub fn find_file(&self, loc: SourceLocation) -> (r: Option<FileId>)
        requires
            self.wf(),
            self.spec_files().len() < u32::MAX,
        ensures
            r matches Some(id) ==> ({
                let e = self.spec_files()[id.spec_as_u32() as int];
                &&& id.spec_is_valid()
                &&& id.spec_as_u32() < self.spec_files().len()
                &&& e.start_offset <= loc.offset < e.start_offset + e.size
            }),
            r is None ==> forall|i: int| 0 <= i < self.spec_files().len() ==> !((
            #[trigger] self.spec_files()[i]).start_offset <= loc.offset < self.spec_files()[
                i
            ].start_offset + self.spec_files()[i].size),
    {
        let n = self.files.len();
        let mut i: usize = 0;
        while i < n
            invariant
                self.wf(),
                n == self.spec_files().len(),
                n < u32::MAX,
                0 <= i <= n,
                forall|j: int| 0 <= j < i ==> !((#[trigger] self.spec_files()[j]).start_offset
                    <= loc.offset < self.spec_files()[j].start_offset + self.spec_files()[j].size),
            decreases n - i,
        {
            let entry = &self.files[i];
            if entry.contains_location(loc) {
                return Some(FileId::new(i as u32));
            }
            i = i + 1;
        }
        None
    }

    /// Next available offset in the global source location space.
    pub fn next_offset(&self) -> (r: u32)
        ensures
            r == self.spec_watermark(),
    {
        self.next_source_offset
    }

    /// Number of loaded files.
    pub fn file_count(&self) -> (r: usize)
        ensures
            r == self.spec_files().len(),
    {
        self.files.len()
    }

    /// Whether a file id names a registered file.
    pub fn is_file_loaded(&self, file_id: FileId) -> (r: bool)
        ensures
            r == (file_id.spec_is_valid() && file_id.spec_as_u32() < self.spec_files().len()),
    {
        file_id.is_valid() && (file_id.as_u32() as usize) < self.files.len()
    }
}

impl Default for SourceManager {
    /// The default manager has no files loaded.
    fn default() -> (r: Self)
        ensures
            r.spec_files().len() == 0,
            r.wf(),
    {
        Self::new()
    }
}

} // verus!
