//! Content identifiers (CIDs), held as their canonical binary encoding, and
//! their two-word form on the ledger.

use vstd::prelude::*;

verus! {

/// The encoding of the sentinel identifier that stands for "no object" and
/// for a root that was never published: the default CID, version 1 with
/// codec 0 and an empty multihash of code 0 (varints `01`, `00`, `00`, `00`).
pub open spec fn empty_cid() -> Seq<u8> {
    seq![1u8, 0u8, 0u8, 0u8]
}

/// What parsing a CID from the front of a byte string gives: the canonical
/// encoding of the identifier read, or `None` when the bytes hold none.
pub uninterp spec fn cid_read(b: Seq<u8>) -> Option<Seq<u8>>;

/// Relies on `TryFrom<&[u8]> for cid::Cid` (which reads one identifier from
/// the front of the bytes) and `Cid::to_bytes`.
#[verifier::external_body]
fn read_cid(bytes: &Vec<u8>) -> (r: Option<Vec<u8>>)
    ensures
        match r {
            Some(v) => cid_read(bytes@) == Some(v@),
            None => cid_read(bytes@) is None,
        },
{
    cid::Cid::try_from(bytes.as_slice()).ok().map(|c| c.to_bytes())
}

/// A content identifier, by its binary encoding.
#[derive(Debug)]
pub struct ContentId {
    pub bytes: Vec<u8>,
}

impl View for ContentId {
    type V = Seq<u8>;

    open spec fn view(&self) -> Seq<u8> {
        self.bytes@
    }
}

/// Compares two byte strings.
pub fn bytes_equal(a: &Vec<u8>, b: &Vec<u8>) -> (r: bool)
    ensures
        r == (a@ == b@),
{
    if a.len() != b.len() {
        return false;
    }
    let mut i: usize = 0;
    while i < a.len()
        invariant
            a.len() == b.len(),
            i <= a.len(),
            a@.subrange(0, i as int) == b@.subrange(0, i as int),
        decreases a.len() - i,
    {
        if a[i] != b[i] {
            assert(a@[i as int] != b@[i as int]);
            return false;
        }
        assert(a@.subrange(0, i + 1) =~= a@.subrange(0, i as int).push(a[i as int]));
        assert(b@.subrange(0, i + 1) =~= b@.subrange(0, i as int).push(b[i as int]));
        i = i + 1;
    }
    assert(a@ =~= a@.subrange(0, i as int));
    assert(b@ =~= b@.subrange(0, i as int));
    true
}

/// Copies a byte string.
pub fn copy_bytes(a: &Vec<u8>) -> (r: Vec<u8>)
    ensures
        r@ == a@,
{
    let r = a.clone();
    assert(r@ =~= a@);
    r
}

impl ContentId {
    pub fn from_bytes(bytes: Vec<u8>) -> (r: ContentId)
        ensures
            r@ == bytes@,
    {
        ContentId { bytes }
    }

    pub fn as_bytes(&self) -> (r: &Vec<u8>)
        ensures
            r@ == self@,
    {
        &self.bytes
    }

    /// The sentinel identifier.
    pub fn empty() -> (r: ContentId)
        ensures
            r@ == empty_cid(),
    {
        let bytes = vec![1u8, 0u8, 0u8, 0u8];
        assert(bytes@ =~= empty_cid());
        ContentId { bytes }
    }

    pub fn is_empty_cid(&self) -> (r: bool)
        ensures
            r == (self@ == empty_cid()),
    {
        let e = ContentId::empty();
        bytes_equal(&self.bytes, &e.bytes)
    }

    pub fn same(&self, other: &ContentId) -> (r: bool)
        ensures
            r == (self@ == other@),
    {
        bytes_equal(&self.bytes, &other.bytes)
    }
}

impl Clone for ContentId {
    fn clone(&self) -> (r: ContentId)
        ensures
            r@ == self@,
    {
        ContentId { bytes: copy_bytes(&self.bytes) }
    }
}

impl PartialEq for ContentId {
    fn eq(&self, other: &ContentId) -> (r: bool) {
        self.same(other)
    }
}

impl vstd::std_specs::cmp::PartialEqSpecImpl for ContentId {
    open spec fn obeys_eq_spec() -> bool {
        true
    }

    open spec fn eq_spec(&self, other: &ContentId) -> bool {
        self@ == other@
    }
}

impl Eq for ContentId {
}

/// Width of one ledger word, in bytes.
pub const WORD_LEN: usize = 32;

/// The 64 bytes that the ledger stores for an identifier: its encoding,
/// zero-padded or cut to two words.
pub open spec fn token_bytes(c: Seq<u8>) -> Seq<u8> {
    Seq::new(64, |i: int| if i < c.len() { c[i] } else { 0u8 })
}

/// Why a ledger value is not an identifier.
#[derive(Debug, PartialEq, Eq, Structural, Clone, Copy)]
pub enum TokenError {
    /// The value does not hold exactly two words.
    InvalidArray,
    /// The two words do not begin with an identifier.
    InvalidCid,
}

/// Splits an identifier into the two 32-byte words that the ledger stores:
/// the encoding followed by zeros, cut at 64 bytes.
pub fn cid_into_token(cid: &ContentId) -> (r: (Vec<u8>, Vec<u8>))
    ensures
        r.0@ == token_bytes(cid@).subrange(0, 32),
        r.1@ == token_bytes(cid@).subrange(32, 64),
{
    let mut first: Vec<u8> = Vec::new();
    let mut second: Vec<u8> = Vec::new();
    let n = cid.bytes.len();
    let mut i: usize = 0;
    while i < 64
        invariant
            n == cid@.len(),
            i <= 64,
            i <= 32 ==> first@ == token_bytes(cid@).subrange(0, i as int) && second@.len() == 0,
            i > 32 ==> first@ == token_bytes(cid@).subrange(0, 32)
                && second@ == token_bytes(cid@).subrange(32, i as int),
        decreases 64 - i,
    {
        let b: u8 = if i < n { cid.bytes[i] } else { 0u8 };
        if i < WORD_LEN {
            first.push(b);
            assert(first@ =~= token_bytes(cid@).subrange(0, i + 1));
        } else {
            second.push(b);
            assert(second@ =~= token_bytes(cid@).subrange(32, i + 1));
        }
        i = i + 1;
    }
    (first, second)
}

/// Reads an identifier back from the words that the ledger stores: exactly
/// two words, whose concatenation begins with an identifier.
pub fn cid_from_token(words: &Vec<Vec<u8>>) -> (r: Result<ContentId, TokenError>)
    ensures
        words@.len() != 2 ==> r == Err::<ContentId, TokenError>(TokenError::InvalidArray),
        words@.len() == 2 ==> match cid_read(words@[0]@ + words@[1]@) {
            Some(c) => r is Ok && r->Ok_0@ == c,
            None => r == Err::<ContentId, TokenError>(TokenError::InvalidCid),
        },
{
    if words.len() != 2 {
        return Err(TokenError::InvalidArray);
    }
    let mut all: Vec<u8> = copy_bytes(&words[0]);
    let mut tail: Vec<u8> = copy_bytes(&words[1]);
    all.append(&mut tail);
    match read_cid(&all) {
        Some(bytes) => Ok(ContentId { bytes }),
        None => Err(TokenError::InvalidCid),
    }
}

} // verus!
