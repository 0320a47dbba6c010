//! The content hash of a file: SHA-256 over its bytes, written in hex.

use vstd::prelude::*;
use vstd::string::StrSliceExecFns;
use vstd::string::StringExecFns;

verus! {

/// A SHA-256 computation that takes the content in pieces.
#[verifier::external_body]
pub struct ContentHasher {
    inner: ::sha2::Sha256,
}

/// The bytes that a hasher has taken in so far, in order.
pub uninterp spec fn absorbed(hasher: ContentHasher) -> Seq<u8>;

/// The SHA-256 digest of a sequence of bytes.
pub uninterp spec fn sha256(data: Seq<u8>) -> Seq<u8>;

/// `Sha256::new` of `Digest`: a hasher that has taken in nothing.
#[verifier::external_body]
fn hasher_new() -> (hasher: ContentHasher)
    ensures
        absorbed(hasher) == Seq::<u8>::empty(),
{
    ContentHasher { inner: <::sha2::Sha256 as ::sha2::Digest>::new() }
}

/// `Digest::update`: the hasher takes in `chunk` after what it has.
#[verifier::external_body]
fn hasher_update(hasher: &mut ContentHasher, chunk: &[u8])
    ensures
        absorbed(*final(hasher)) == absorbed(*old(hasher)) + chunk@,
{
    ::sha2::Digest::update(&mut hasher.inner, chunk);
}

/// `Digest::finalize`: the digest of all that the hasher has taken in.
#[verifier::external_body]
fn hasher_finalize(hasher: ContentHasher) -> (digest: Vec<u8>)
    ensures
        digest@ == sha256(absorbed(hasher)),
{
    ::sha2::Digest::finalize(hasher.inner).to_vec()
}

/// The sixteen hex digits, in order.
pub const HEX_DIGITS: &'static str = "0123456789abcdef";

/// The two hex digits of a byte, high digit first.
pub open spec fn hex_of_byte(b: u8) -> Seq<char> {
    seq![HEX_DIGITS@[b as int / 16], HEX_DIGITS@[b as int % 16]]
}

/// The bytes written in lower-case hex, two digits each.
pub open spec fn hex_of(data: Seq<u8>) -> Seq<char>
    decreases data.len(),
{
    if data.len() == 0 {
        Seq::empty()
    } else {
        hex_of(data.drop_last()) + hex_of_byte(data.last())
    }
}

/// All pieces of a content, one after the other.
pub open spec fn joined(chunks: Seq<Vec<u8>>) -> Seq<u8>
    decreases chunks.len(),
{
    if chunks.len() == 0 {
        Seq::empty()
    } else {
        joined(chunks.drop_last()) + chunks.last()@
    }
}

/// The content hash of a sequence of bytes.
pub open spec fn content_hash(data: Seq<u8>) -> Seq<char> {
    hex_of(sha256(data))
}

/// The bytes written in lower-case hex, two digits each.
pub fn to_hex(data: &Vec<u8>) -> (r: String)
    ensures
        r@ == hex_of(data@),
{
    proof {
        reveal_strlit("0123456789abcdef");
    }
    let mut r = String::new();
    let mut i: usize = 0;
    proof {
        assert(data@.take(0) =~= Seq::<u8>::empty());
    }
    while i < data.len()
        invariant
            i <= data.len(),
            HEX_DIGITS@.len() == 16,
            r@ == hex_of(data@.take(i as int)),
        decreases data.len() - i,
    {
        let b = data[i];
        let hi: usize = (b / 16) as usize;
        let lo: usize = (b % 16) as usize;
        let h = HEX_DIGITS.substring_char(hi, hi + 1);
        let l = HEX_DIGITS.substring_char(lo, lo + 1);
        proof {
            assert(data@.take(i + 1).drop_last() =~= data@.take(i as int));
            assert(data@.take(i + 1).last() == b);
            assert(h@ + l@ =~= hex_of_byte(b));
            assert(r@ + h@ + l@ =~= r@ + hex_of_byte(b));
        }
        r.append(h);
        r.append(l);
        i += 1;
    }
    proof {
        assert(data@.take(data.len() as int) =~= data@);
    }
    r
}

impl View for ContentHasher {
    type V = Seq<u8>;

    closed spec fn view(&self) -> Seq<u8> {
        absorbed(*self)
    }
}

impl ContentHasher {
    /// A hasher that has taken in nothing.
    pub fn new() -> (r: ContentHasher)
        ensures
            r@ == Seq::<u8>::empty(),
    {
        hasher_new()
    }

    /// Takes in the next piece of the content.
    pub fn update(&mut self, chunk: &[u8])
        ensures
            final(self)@ == old(self)@ + chunk@,
    {
        hasher_update(self, chunk);
    }

    /// The content hash of all that was taken in.
    pub fn finish(self) -> (r: String)
        ensures
            r@ == content_hash(self@),
    {
        let digest = hasher_finalize(self);
        to_hex(&digest)
    }
}

/// The content hash of a content that comes in pieces.
pub fn hash_chunks(chunks: &Vec<Vec<u8>>) -> (r: String)
    ensures
        r@ == content_hash(joined(chunks@)),
{
    let mut hasher = ContentHasher::new();
    let mut i: usize = 0;
    proof {
        assert(chunks@.take(0) =~= Seq::<Vec<u8>>::empty());
    }
    while i < chunks.len()
        invariant
            i <= chunks.len(),
            hasher@ == joined(chunks@.take(i as int)),
        decreases chunks.len() - i,
    {
        proof {
            assert(chunks@.take(i + 1).drop_last() =~= chunks@.take(i as int));
        }
        hasher.update(chunks[i].as_slice());
        i += 1;
    }
    proof {
        assert(chunks@.take(chunks.len() as int) =~= chunks@);
    }
    hasher.finish()
}

} // verus!
