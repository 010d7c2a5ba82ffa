use vstd::prelude::*;
use vstd::slice::slice_to_vec;
use vstd::utf8::encode_utf8;
use vstd::utf8::valid_utf8;
use vstd::utf8::decode_utf8;
use std::sync::Arc;

verus! {

/// Immutable, shareable byte container with a name. Cloning shares the
/// underlying storage; the bytes never change after construction.
#[derive(Debug, Clone, PartialEq)]
pub struct MemoryBuffer {
    data: Arc<Vec<u8>>,
    buffer_name: String,
}

impl View for MemoryBuffer {
    type V = Seq<u8>;

    closed spec fn view(&self) -> Seq<u8> {
        self.data@
    }
}

impl MemoryBuffer {
    /// The buffer's name, as the character sequence it was given.
    pub closed spec fn spec_name(&self) -> Seq<char> {
        self.buffer_name@
    }

    pub fn from_vec(data: Vec<u8>, buffer_name: String) -> (r: Self)
        ensures
            r@ == data@,
            r.spec_name() == buffer_name@,
    {
        Self { data: Arc::new(data), buffer_name }
    }

    pub fn from_string(text: String, buffer_name: String) -> (r: Self)
        ensures
            r@ == encode_utf8(text@),
            r.spec_name() == buffer_name@,
    {
        let bytes = slice_to_vec(text.as_str().as_bytes());
        Self::from_vec(bytes, buffer_name)
    }

    pub fn from_slice(data: &[u8], buffer_name: String) -> (r: Self)
        ensures
            r@ == data@,
            r.spec_name() == buffer_name@,
    {
        Self::from_vec(slice_to_vec(data), buffer_name)
    }

    pub fn from_str(text: &str, buffer_name: String) -> (r: Self)
        ensures
            r@ == encode_utf8(text@),
            r.spec_name() == buffer_name@,
    {
        Self::from_vec(slice_to_vec(text.as_bytes()), buffer_name)
    }

    /// Relies on std's `Arc` dereference: the slice is the shared vector's
    /// contents.
    #[verifier::external_body]
    pub fn data(&self) -> (r: &[u8])
        ensures
            r@ == self@,
    {
        self.data.as_slice()
    }

    pub fn buffer_name(&self) -> (r: &str)
        ensures
            r@ == self.spec_name(),
    {
        self.buffer_name.as_str()
    }

    pub fn size(&self) -> (r: usize)
        ensures
            r == self@.len(),
    {
        self.data().len()
    }

    pub fn is_empty(&self) -> (r: bool)
        ensures
            r == (self@.len() == 0),
    {
        self.data().is_empty()
    }

    /// The contents decoded as UTF-8, when they are valid UTF-8.
    pub fn as_str(&self) -> (r: Option<&str>)
        ensures
            r is Some <==> valid_utf8(self@),
            r matches Some(s) ==> s@ == decode_utf8(self@),
    {
        utf8_decode_slice(self.data())
    }

    /// The byte at `offset`, when the offset is in bounds.
    pub fn char_at(&self, offset: usize) -> (r: Option<u8>)
        ensures
            offset < self@.len() ==> r == Some(self@[offset as int]),
            offset >= self@.len() ==> r is None,
    {
        let d = self.data();
        if offset < d.len() {
            Some(*vstd::slice::slice_index_get(d, offset))
        } else {
            None
        }
    }

    /// A copy of the contents, byte by byte.
    pub fn chars(&self) -> (r: Vec<u8>)
        ensures
            r@ == self@,
    {
        slice_to_vec(self.data())
    }
}

/// Relies on std's `str::from_utf8`: it returns `Ok` exactly when the
/// bytes are valid UTF-8, and then the `&str` holds their decoding.
#[verifier::external_body]
fn utf8_decode_slice(bytes: &[u8]) -> (r: Option<&str>)
    ensures
        r is Some <==> valid_utf8(bytes@),
        r matches Some(s) ==> s@ == decode_utf8(bytes@),
{
    std::str::from_utf8(bytes).ok()
}

} // verus!
