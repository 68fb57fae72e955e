//! Identifiers of network participants and projects.
//!
//! A user is identified by an Ed25519 public key; a project by a 32-byte
//! content digest. Both render as multibase-Base58Btc strings; a DID is the
//! string `did:key:` followed by the encoded public key.

use vstd::prelude::*;
use vstd::string::StrSliceExecFns;
use vstd::string::StringExecFns;

verus! {

/// The Base58Btc multibase rendering of a byte string, as `multibase::encode`
/// returns it (including the leading base prefix character).
pub uninterp spec fn b58_of(b: Seq<u8>) -> Seq<char>;

/// What `multibase::decode` makes of a character string: the byte string it
/// is the Base58Btc multibase rendering of, if it is one.
pub uninterp spec fn b58_parse(s: Seq<char>) -> Option<Seq<u8>>;

/// True of every character `multibase::encode` emits for Base58Btc: the
/// base-58 alphabet is alphanumeric ASCII, and the multibase prefix is `z`.
pub open spec fn b58_char(c: char) -> bool {
    ('1' <= c && c <= '9') || ('A' <= c && c <= 'Z') || ('a' <= c && c <= 'z')
}

/// Relies on `multibase::encode` with `Base::Base58Btc`: the result depends
/// on the bytes alone, decodes back to them, and is alphanumeric ASCII.
#[verifier::external_body]
pub(crate) fn multibase_encode(b: &[u8]) -> (r: String)
    ensures
        r@ == b58_of(b@),
        b58_parse(r@) == Some(b@),
        forall|i: int| 0 <= i < r@.len() ==> b58_char(#[trigger] r@[i]),
{
    multibase::encode(multibase::Base::Base58Btc, b)
}

/// Relies on `multibase::decode`: it returns the bytes a multibase string
/// encodes, with the base it named, and fails on anything else.
#[verifier::external_body]
pub(crate) fn multibase_decode(s: &str) -> (r: Option<Vec<u8>>)
    ensures
        r matches Some(b) ==> b58_parse(s@) == Some(b@),
        r is None ==> b58_parse(s@) is None,
{
    match multibase::decode(s) {
        Ok((multibase::Base::Base58Btc, bytes)) => Some(bytes),
        Ok((_, _)) => None,
        Err(_) => None,
    }
}

/// An Ed25519 public key, identifying a network participant.
#[derive(Clone, Copy, Debug, PartialEq, Eq)]
pub struct PublicKey {
    pub bytes: [u8; 32],
}

/// A user's identifier is simply their public key.
pub type UserId = PublicKey;

impl View for PublicKey {
    type V = Seq<u8>;

    open spec fn view(&self) -> Seq<u8> {
        self.bytes@
    }
}

impl PublicKey {
    pub fn new(bytes: [u8; 32]) -> (r: PublicKey)
        ensures
            r@ == bytes@,
    {
        PublicKey { bytes }
    }

    /// Whether two keys hold the same raw bytes.
    pub fn equals(&self, other: &PublicKey) -> (r: bool)
        ensures
            r <==> self@ == other@,
    {
        bytes32_eq(&self.bytes, &other.bytes)
    }

    /// The multibase-Base58Btc rendering of the raw key.
    pub fn encode(&self) -> (r: String)
        ensures
            r@ == b58_of(self@),
            b58_parse(r@) == Some(self@),
    {
        multibase_encode(self.bytes.as_slice())
    }

    /// Parse a multibase-Base58Btc rendering of a 32-byte key.
    pub fn decode(input: &str) -> (r: Option<PublicKey>)
        ensures
            r matches Some(k) ==> b58_parse(input@) == Some(k@),
            r is None ==> !(b58_parse(input@) matches Some(b) && b.len() == 32),
    {
        match multibase_decode(input) {
            Some(bytes) => {
                if bytes.len() == 32 {
                    let mut raw: [u8; 32] = vstd::array::array_fill_for_copy_types(0u8);
                    copy_bytes32(&mut raw, &bytes);
                    proof {
                        assert(raw@ =~= bytes@);
                    }
                    Some(PublicKey { bytes: raw })
                } else {
                    None
                }
            },
            None => None,
        }
    }
}

/// Compare two 32-byte strings for equality.
pub(crate) fn bytes32_eq(a: &[u8; 32], b: &[u8; 32]) -> (r: bool)
    ensures
        r <==> a@ == b@,
{
    let mut i: usize = 0;
    while i < 32
        invariant
            0 <= i <= 32,
            forall|j: int| 0 <= j < i ==> a@[j] == b@[j],
        decreases 32 - i,
    {
        if a[i] != b[i] {
            return false;
        }
        i += 1;
    }
    proof {
        assert(a@ =~= b@);
    }
    true
}

/// Copy a 32-byte vector into an array.
pub(crate) fn copy_bytes32(dst: &mut [u8; 32], src: &Vec<u8>)
    requires
        src@.len() == 32,
    ensures
        forall|j: int| 0 <= j < 32 ==> final(dst)@[j] == src@[j],
{
    let mut i: usize = 0;
    while i < 32
        invariant
            0 <= i <= 32,
            src@.len() == 32,
            forall|j: int| 0 <= j < i ==> dst@[j] == src@[j],
        decreases 32 - i,
    {
        dst[i] = src[i];
        i += 1;
    }
}

/// Why a string failed to parse as a project identifier.
#[derive(Debug)]
pub enum ProjIdError {
    /// The string is not the Base58Btc rendering of a 32-byte digest.
    InvalidDigest,
}

/// A project identifier: an opaque 32-byte content digest.
#[derive(Clone, Copy, Debug, PartialEq, Eq)]
pub struct ProjId {
    pub digest: [u8; 32],
}

impl View for ProjId {
    type V = Seq<u8>;

    open spec fn view(&self) -> Seq<u8> {
        self.digest@
    }
}

impl ProjId {
    pub fn new(digest: [u8; 32]) -> (r: ProjId)
        ensures
            r@ == digest@,
    {
        ProjId { digest }
    }

    /// Whether two identifiers hold the same digest.
    pub fn equals(&self, other: &ProjId) -> (r: bool)
        ensures
            r <==> self@ == other@,
    {
        bytes32_eq(&self.digest, &other.digest)
    }

    /// The multibase-Base58Btc rendering of the digest.
    pub fn encode(&self) -> (r: String)
        ensures
            r@ == b58_of(self@),
            b58_parse(r@) == Some(self@),
    {
        multibase_encode(self.digest.as_slice())
    }

    /// Parse the Base58Btc rendering of a 32-byte digest.
    pub fn from_str(s: &str) -> (r: Result<ProjId, ProjIdError>)
        ensures
            r matches Ok(p) ==> b58_parse(s@) == Some(p@),
            r is Err ==> !(b58_parse(s@) matches Some(b) && b.len() == 32),
    {
        match PublicKey::decode(s) {
            Some(k) => Ok(ProjId { digest: k.bytes }),
            None => Err(ProjIdError::InvalidDigest),
        }
    }
}

/// Why a string failed to parse as a DID.
#[derive(Debug)]
pub enum DidError {
    /// The string does not start with `did:key:`; carries the input.
    Did(String),
    /// What follows `did:key:` is not a valid public key.
    PublicKey,
}

/// The character string of a DID for the given raw key.
pub open spec fn did_chars(key: Seq<u8>) -> Seq<char> {
    "did:key:"@ + b58_of(key)
}

/// A decentralized identifier: `did:key:` followed by the encoded key.
#[derive(Clone, Copy, Debug, PartialEq, Eq)]
pub struct Did(pub PublicKey);

impl View for Did {
    type V = Seq<u8>;

    open spec fn view(&self) -> Seq<u8> {
        self.0@
    }
}

impl Did {
    /// Render the DID as a string.
    pub fn encode(&self) -> (r: String)
        ensures
            r@ == did_chars(self@),
            b58_parse(r@.skip(8)) == Some(self@),
    {
        let mut out = "did:key:".to_owned();
        let key = self.0.encode();
        out.append(key.as_str());
        proof {
            reveal_strlit("did:key:");
            assert(out@.skip(8) =~= b58_of(self@));
        }
        out
    }

    /// Parse a DID string; inverse of [`Did::encode`].
    pub fn decode(input: &str) -> (r: Result<Did, DidError>)
        ensures
            r matches Ok(d) ==> input@.len() >= 8 && input@.subrange(0, 8) == "did:key:"@
                && b58_parse(input@.skip(8)) == Some(d@),
            r is Err ==> !(input@.len() >= 8 && input@.subrange(0, 8) == "did:key:"@
                && (b58_parse(input@.skip(8)) matches Some(b) && b.len() == 32)),
            r matches Err(e) ==> match e {
                DidError::Did(bad) => bad@ == input@ && !(input@.len() >= 8 && input@.subrange(
                    0,
                    8,
                ) == "did:key:"@),
                DidError::PublicKey => input@.len() >= 8 && input@.subrange(0, 8) == "did:key:"@,
            },
    {
        let n: usize = input.unicode_len();
        if n < 8 {
            return Err(DidError::Did(input.to_owned()));
        }
        let prefix = "did:key:";
        proof {
            reveal_strlit("did:key:");
        }
        let mut i: usize = 0;
        while i < 8
            invariant
                0 <= i <= 8,
                n == input@.len(),
                n >= 8,
                prefix@ == "did:key:"@,
                prefix@.len() == 8,
                forall|j: int| 0 <= j < i ==> input@[j] == prefix@[j],
            decreases 8 - i,
        {
            if input.get_char(i) != prefix.get_char(i) {
                proof {
                    assert(input@.subrange(0, 8) != "did:key:"@) by {
                        assert(input@.subrange(0, 8)[i as int] == input@[i as int]);
                    }
                }
                return Err(DidError::Did(input.to_owned()));
            }
            i += 1;
        }
        proof {
            assert(input@.subrange(0, 8) =~= "did:key:"@);
        }
        let rest = input.substring_char(8, n);
        proof {
            assert(rest@ =~= input@.skip(8));
        }
        match PublicKey::decode(rest) {
            Some(k) => Ok(Did(k)),
            None => Err(DidError::PublicKey),
        }
    }
}

/// A key authorized to speak for a project identity, under a display name.
#[derive(Clone, Debug)]
pub struct Delegate {
    pub name: String,
    pub id: Did,
}

/// A git object identifier: a 20-byte SHA-1 reference target.
#[derive(Clone, Copy, Debug, PartialEq, Eq)]
pub struct Oid {
    pub bytes: [u8; 20],
}

impl View for Oid {
    type V = Seq<u8>;

    open spec fn view(&self) -> Seq<u8> {
        self.bytes@
    }
}

/// A project identity document.
///
/// Of the two historical drafts of this document, this is the richer one:
/// it keeps the default branch, an optional parent revision, and one or
/// more delegates.
#[derive(Clone, Debug)]
pub struct Doc {
    pub name: String,
    pub description: String,
    pub default_branch: String,
    pub version: u32,
    pub parent: Option<Oid>,
    pub delegates: Vec<Delegate>,
}

impl Doc {
    /// A document must name at least one delegate.
    pub open spec fn well_formed(&self) -> bool {
        self.delegates@.len() >= 1
    }

    /// Whether the document names at least one delegate.
    pub fn is_well_formed(&self) -> (r: bool)
        ensures
            r == self.well_formed(),
    {
        self.delegates.len() >= 1
    }
}

} // verus!
