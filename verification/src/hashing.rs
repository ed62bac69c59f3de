//! Content hashing for downloaded artifacts: an incrementally-fed SHA-1
//! digest, lower-case hex rendering of the result, and the case-insensitive
//! hash comparison the pipeline verifies artifacts with.

use vstd::prelude::*;

use crate::error::InstallError;
use crate::text::{eq_ignore_case, push_char, str_eq_ignore_case};

verus! {

/// The SHA-1 digest of a byte sequence. The digest is a pure function of the
/// bytes alone; its 20-byte value is not restated here.
pub uninterp spec fn sha1_digest(bytes: Seq<u8>) -> Seq<u8>;

/// Declares sha1::Sha1, the outside digest state, so a field can hold one;
/// the value is opaque here.
#[verifier::external_type_specification]
#[verifier::external_body]
pub struct ExSha1(sha1::Sha1);

/// Relies on digest::Digest::new as implemented by sha1::Sha1: the digest
/// state for an empty input.
#[verifier::external_body]
fn sha1_new() -> sha1::Sha1 {
    <sha1::Sha1 as sha1::Digest>::new()
}

/// An in-progress content digest over the exact bytes written so far.
pub struct StreamHasher {
    inner: sha1::Sha1,
    bytes: Ghost<Seq<u8>>,
}

impl StreamHasher {
    /// The bytes fed so far.
    pub closed spec fn bytes(self) -> Seq<u8> {
        self.bytes@
    }

    /// A fresh hasher over no bytes.
    pub fn new() -> (r: StreamHasher)
        ensures
            r.bytes() == Seq::<u8>::empty(),
    {
        StreamHasher { inner: sha1_new(), bytes: Ghost(Seq::empty()) }
    }

    /// Relies on digest::Digest::update: feeds a chunk into the digest state.
    #[verifier::external_body]
    pub fn update(&mut self, chunk: &[u8])
        ensures
            final(self).bytes() == old(self).bytes() + chunk@,
    {
        <sha1::Sha1 as sha1::Digest>::update(&mut self.inner, chunk);
    }

    /// Relies on digest::Digest::finalize: the 20-byte SHA-1 digest of all
    /// bytes fed.
    #[verifier::external_body]
    pub fn finalize(self) -> (r: Vec<u8>)
        ensures
            r@ == sha1_digest(self.bytes()),
            r@.len() == 20,
    {
        <sha1::Sha1 as sha1::Digest>::finalize(self.inner).to_vec()
    }
}

/// The lower-case hex character of one digit value.
pub open spec fn hex_digit(d: nat) -> char
    recommends
        d < 16,
{
    if d < 10 {
        ((48 + d) as u8) as char
    } else {
        ((87 + d) as u8) as char
    }
}

/// The lower-case hex rendering of a byte sequence, two digits per byte.
pub open spec fn hex_rep(bytes: Seq<u8>) -> Seq<char>
    decreases bytes.len(),
{
    if bytes.len() == 0 {
        Seq::empty()
    } else {
        hex_rep(bytes.drop_last()) + seq![
            hex_digit((bytes.last() >> 4) as nat),
            hex_digit((bytes.last() & 0x0f) as nat),
        ]
    }
}

/// Renders bytes as lower-case hex, as `hex_rep` describes.
pub fn hex_encode(bytes: &[u8]) -> (s: String)
    ensures
        s@ == hex_rep(bytes@),
{
    let mut s = String::new();
    let n = bytes.len();
    for i in 0..n
        invariant
            n == bytes@.len(),
            s@ == hex_rep(bytes@.take(i as int)),
    {
        let b = bytes[i];
        let hi: u8 = b >> 4;
        let lo: u8 = b & 0x0f;
        assert(b >> 4 < 16 && b & 0x0f < 16) by (bit_vector);
        let hc: char = (if hi < 10 {
            48 + hi
        } else {
            87 + hi
        }) as char;
        let lc: char = (if lo < 10 {
            48 + lo
        } else {
            87 + lo
        }) as char;
        push_char(&mut s, hc);
        push_char(&mut s, lc);
        proof {
            let t = bytes@.take(i + 1);
            assert(t.drop_last() =~= bytes@.take(i as int));
            assert(t.last() == bytes@[i as int]);
            assert(s@ =~= hex_rep(t));
        }
    }
    assert(bytes@.take(n as int) =~= bytes@);
    s
}

/// Feeds every byte and returns the digest in lower-case hex: the content
/// hash of the exact bytes given.
pub fn sha1_hex(bytes: &[u8]) -> (s: String)
    ensures
        s@ == hex_rep(sha1_digest(bytes@)),
{
    let mut h = StreamHasher::new();
    h.update(bytes);
    proof {
        assert(Seq::<u8>::empty() + bytes@ =~= bytes@);
    }
    let digest = h.finalize();
    hex_encode(digest.as_slice())
}

/// Two hashes match when they are equal ignoring ASCII case.
pub fn hash_matches(expected: &str, actual: &str) -> (r: bool)
    ensures
        r == eq_ignore_case(expected@, actual@),
{
    str_eq_ignore_case(expected, actual)
}

/// Accepts a computed hash iff it case-insensitively equals the expected one;
/// a mismatch is an integrity failure naming the destination path.
pub fn verify_hash(expected: &str, actual: &str, final_path: &str) -> (r: Result<
    (),
    InstallError,
>)
    ensures
        r is Ok <==> eq_ignore_case(expected@, actual@),
        r is Err ==> (match r->Err_0 {
            InstallError::Integrity { expected: e, actual: a, path: p } => e@ == expected@ && a@
                == actual@ && p@ == final_path@,
            _ => false,
        }),
{
    if hash_matches(expected, actual) {
        Ok(())
    } else {
        Err(
            InstallError::Integrity {
                expected: expected.to_owned(),
                actual: actual.to_owned(),
                path: final_path.to_owned(),
            },
        )
    }
}

} // verus!
