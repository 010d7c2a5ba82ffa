use vstd::prelude::*;
use vstd::slice::slice_index_get;
use vstd::slice::slice_to_vec;
use vstd::utf8::valid_utf8;
use vstd::utf8::decode_utf8;

verus! {

/// Identifies a command name (a control word or an active character) in
/// the document. Identifiers issued by one [`CommandIdentifierTable`]
/// are equal exactly when they were interned from the same byte
/// sequence, so equality is a constant-time handle comparison.
///
/// A command name need not be valid UTF-8, hence the underlying
/// container is a byte sequence.
#[derive(Debug, Clone, Copy, PartialEq, Eq, Structural, Hash)]
pub struct CommandIdentifier {
    index: usize,
}

impl CommandIdentifier {
    /// Position of this identifier's bytes in the issuing table.
    pub closed spec fn spec_index(self) -> int {
        self.index as int
    }

    /// The interned bytes of this identifier, read back from the table
    /// that issued it.
    pub fn as_bytes<'a>(&self, table: &'a CommandIdentifierTable) -> (r: &'a [u8])
        requires
            0 <= self.spec_index() < table@.len(),
        ensures
            r@ == table@[self.spec_index()],
    {
        table.bytes_of(*self)
    }

    /// The interned bytes decoded as UTF-8, when they are valid UTF-8.
    pub fn as_utf8(&self, table: &CommandIdentifierTable) -> (r: Option<String>)
        requires
            0 <= self.spec_index() < table@.len(),
        ensures
            r is Some <==> valid_utf8(table@[self.spec_index()]),
            r matches Some(s) ==> s@ == decode_utf8(table@[self.spec_index()]),
    {
        utf8_decode_bytes(table.bytes_of(*self))
    }
}

/// Relies on std's `String::from_utf8`: it returns `Ok` exactly when the
/// bytes are valid UTF-8, and then holds their decoding.
#[verifier::external_body]
fn utf8_decode_bytes(bytes: &[u8]) -> (r: Option<String>)
    ensures
        r is Some <==> valid_utf8(bytes@),
        r matches Some(s) ==> s@ == decode_utf8(bytes@),
{
    String::from_utf8(bytes.to_vec()).ok()
}

/// No two entries of the table hold the same byte sequence.
pub open spec fn distinct_names(names: Seq<Seq<u8>>) -> bool {
    forall|i: int, j: int| 0 <= i < j < names.len() ==> names[i] != names[j]
}

/// Index of `b` among `names`, meaningful when `names` contains `b`.
pub open spec fn name_index(names: Seq<Seq<u8>>, b: Seq<u8>) -> int {
    choose|i: int| 0 <= i < names.len() && names[i] == b
}

/// Interning `b` into a table: an already-present sequence leaves the
/// table unchanged and yields its existing index; a new sequence is
/// appended and yields the fresh index.
pub open spec fn spec_intern(names: Seq<Seq<u8>>, b: Seq<u8>) -> (Seq<Seq<u8>>, int) {
    if names.contains(b) {
        (names, name_index(names, b))
    } else {
        (names.push(b), names.len() as int)
    }
}

/// A table interning command-name byte sequences into stable
/// identifiers. Identifiers stay valid for the lifetime of the table;
/// entries are never moved or removed.
pub struct CommandIdentifierTable {
    names: Vec<Vec<u8>>,
}

impl View for CommandIdentifierTable {
    type V = Seq<Seq<u8>>;

    closed spec fn view(&self) -> Seq<Seq<u8>> {
        Seq::new(self.names@.len(), |i: int| self.names@[i]@)
    }
}

impl CommandIdentifierTable {
    /// The table's invariant: every interned byte sequence occurs once.
    pub open spec fn wf(self) -> bool {
        distinct_names(self@)
    }

    pub fn new() -> (r: Self)
        ensures
            r@ == Seq::<Seq<u8>>::empty(),
            r.wf(),
    {
        let r = Self { names: Vec::new() };
        proof {
            assert(r@ =~= Seq::<Seq<u8>>::empty());
        }
        r
    }

    /// Looks a command name up, inserting it first when it is new. Equal
    /// byte sequences always yield the same identifier; earlier entries
    /// are never disturbed.
    pub fn get_or_insert(&mut self, name_bytes: &[u8]) -> (id: CommandIdentifier)
        requires
            old(self).wf(),
        ensures
            final(self).wf(),
            old(self)@.is_prefix_of(final(self)@),
            0 <= id.spec_index() < final(self)@.len(),
            final(self)@[id.spec_index()] == name_bytes@,
            final(self)@ == spec_intern(old(self)@, name_bytes@).0,
            id.spec_index() == spec_intern(old(self)@, name_bytes@).1,
    {
        let n = self.names.len();
        let mut i: usize = 0;
        while i < n
            invariant
                *self == *old(self),
                old(self).wf(),
                n == self@.len(),
                0 <= i <= n,
                forall|j: int| 0 <= j < i ==> self@[j] != name_bytes@,
            decreases n - i,
        {
            if bytes_eq(self.names[i].as_slice(), name_bytes) {
                proof {
                    assert(self@ == old(self)@);
                    assert(distinct_names(self@));
                    assert(self@[i as int] == name_bytes@);
                    assert(self@.contains(name_bytes@));
                    let j = name_index(self@, name_bytes@);
                    assert(self@[j] == name_bytes@);
                    if (i as int) < j {
                        assert(self@[i as int] != self@[j]);
                    } else if j < i as int {
                        assert(self@[j] != self@[i as int]);
                    }
                }
                return CommandIdentifier { index: i };
            }
            i = i + 1;
        }
        proof {
            assert(forall|j: int| 0 <= j < self@.len() ==> self@[j] != name_bytes@);
            assert(!self@.contains(name_bytes@));
        }
        let ghost pre = self@;
        self.names.push(slice_to_vec(name_bytes));
        proof {
            assert(self@ =~= pre.push(name_bytes@));
        }
        CommandIdentifier { index: n }
    }

    /// The bytes interned under an identifier this table issued.
    pub fn bytes_of<'a>(&'a self, id: CommandIdentifier) -> (r: &'a [u8])
        requires
            0 <= id.spec_index() < self@.len(),
        ensures
            r@ == self@[id.spec_index()],
    {
        self.names[id.index].as_slice()
    }

    /// Number of distinct command names interned so far.
    pub fn len(&self) -> (r: usize)
        ensures
            r == self@.len(),
    {
        self.names.len()
    }
}

/// Byte-wise equality of two slices.
fn bytes_eq(a: &[u8], b: &[u8]) -> (r: bool)
    ensures
        r == (a@ == b@),
{
    if a.len() != b.len() {
        return false;
    }
    let mut i: usize = 0;
    while i < a.len()
        invariant
            a@.len() == b@.len(),
            0 <= i <= a@.len(),
            forall|j: int| 0 <= j < i ==> a@[j] == b@[j],
        decreases a@.len() - i,
    {
        if *slice_index_get(a, i) != *slice_index_get(b, i) {
            return false;
        }
        i = i + 1;
    }
    proof {
        assert(a@ =~= b@);
    }
    true
}

/// Identifiers are nothing but their position in the issuing table: two
/// identifiers are equal exactly when their positions are. With
/// [`lemma_intern_stable`] this lets a caller conclude handle-level
/// equality for any two command names with identical bytes interned in
/// one session.
pub proof fn lemma_identifier_equality(a: CommandIdentifier, b: CommandIdentifier)
    ensures
        (a == b) <==> (a.spec_index() == b.spec_index()),
{
}

/// Law: within one session, equal byte sequences resolve to the same
/// identifier, whatever was interned in between: if `b` stands at `i0`
/// in an earlier table state and at `i1` in any later state that grew
/// from it (interning only extends the table, see
/// [`lemma_intern_preserves`]), the two positions — and with
/// [`lemma_identifier_equality`] the two handles — coincide.
pub proof fn lemma_session_handle_equality(
    names0: Seq<Seq<u8>>,
    names1: Seq<Seq<u8>>,
    b: Seq<u8>,
    i0: int,
    i1: int,
)
    requires
        distinct_names(names1),
        names0.is_prefix_of(names1),
        0 <= i0 < names0.len(),
        names0[i0] == b,
        0 <= i1 < names1.len(),
        names1[i1] == b,
    ensures
        i0 == i1,
{
    assert(names1[i0] == names0[i0]);
    if i0 < i1 {
        assert(names1[i0] != names1[i1]);
    } else if i1 < i0 {
        assert(names1[i1] != names1[i0]);
    }
}

/// Law: interning a byte sequence and reading the identifier back yields
/// exactly those bytes.
pub proof fn lemma_intern_round_trip(names: Seq<Seq<u8>>, b: Seq<u8>)
    requires
        distinct_names(names),
    ensures
        0 <= spec_intern(names, b).1 < spec_intern(names, b).0.len(),
        spec_intern(names, b).0[spec_intern(names, b).1] == b,
{
    if names.contains(b) {
        assert(names[name_index(names, b)] == b);
    }
}

/// Law: once a byte sequence is present at some index, interning it
/// again changes nothing and yields that same index. With
/// [`lemma_intern_round_trip`] this gives handle-level equality for any
/// two control words with identical decoded bytes in one session.
pub proof fn lemma_intern_stable(names: Seq<Seq<u8>>, i: int, b: Seq<u8>)
    requires
        distinct_names(names),
        0 <= i < names.len(),
        names[i] == b,
    ensures
        spec_intern(names, b).0 == names,
        spec_intern(names, b).1 == i,
{
    assert(names.contains(b));
    let j = name_index(names, b);
    assert(names[j] == b);
    if i < j {
        assert(names[i] != names[j]);
    } else if j < i {
        assert(names[j] != names[i]);
    }
}

/// Law: interning preserves the invariant and keeps every earlier entry
/// at its index.
pub proof fn lemma_intern_preserves(names: Seq<Seq<u8>>, c: Seq<u8>)
    requires
        distinct_names(names),
    ensures
        distinct_names(spec_intern(names, c).0),
        names.is_prefix_of(spec_intern(names, c).0),
{
    if !names.contains(c) {
        let pushed = names.push(c);
        assert forall|i: int, j: int| 0 <= i < j < pushed.len() implies pushed[i] != pushed[j] by {
            if j == names.len() {
                assert(pushed[i] == names[i]);
                assert(names.contains(names[i]));
            }
        }
        assert(names =~= pushed.subrange(0, names.len() as int));
    }
}

/// Law: distinct byte sequences intern to distinct identifiers.
pub proof fn lemma_intern_distinct(names: Seq<Seq<u8>>, b1: Seq<u8>, b2: Seq<u8>)
    requires
        distinct_names(names),
        b1 != b2,
    ensures
        ({
            let (names1, i1) = spec_intern(names, b1);
            let (names2, i2) = spec_intern(names1, b2);
            i1 != i2
        }),
{
    let (names1, i1) = spec_intern(names, b1);
    lemma_intern_round_trip(names, b1);
    lemma_intern_preserves(names, b1);
    lemma_intern_round_trip(names1, b2);
}

} // verus!
