//! Content digests with blake3, fed in chunks, optionally only up to a byte
//! limit (the cheap prefix stage of duplicate detection).
//!
//! Reading the file is the caller's part: it asks `next_read_len` how much to
//! read, hands what it read to `feed` (an empty read marks the end of the
//! file), and takes the digest from `finish`.

use vstd::prelude::*;

verus! {

/// Bytes hashed in the cheap prefix stage of duplicate detection.
pub const PREFIX_LIMIT: u64 = 16 * 1024;

#[verifier::external_type_specification]
#[verifier::external_body]
pub struct ExHasher(blake3::Hasher);

/// The bytes a blake3 hasher has been fed, in order.
pub uninterp spec fn hashed_input(h: blake3::Hasher) -> Seq<u8>;

/// The 32-byte blake3 digest of `input` (what `Hasher::finalize` returns).
pub uninterp spec fn blake3_digest(input: Seq<u8>) -> Seq<u8>;

/// blake3's `Hasher::new`: a hasher that has been fed nothing.
#[verifier::external_body]
fn hasher_new() -> (h: blake3::Hasher)
    ensures
        hashed_input(h) == Seq::<u8>::empty(),
{
    blake3::Hasher::new()
}

/// blake3's `Hasher::update`: feeds `input` after what the hasher already holds.
#[verifier::external_body]
fn hasher_update(h: &mut blake3::Hasher, input: &[u8])
    ensures
        hashed_input(*final(h)) == hashed_input(*old(h)) + input@,
{
    h.update(input);
}

/// blake3's `Hasher::finalize` (as bytes): the digest of all input fed so far;
/// the hasher is left as it was.
#[verifier::external_body]
fn hasher_finalize(h: &blake3::Hasher) -> (d: [u8; 32])
    ensures
        d@ == blake3_digest(hashed_input(*h)),
{
    *h.finalize().as_bytes()
}

/// A digest in progress over at most a byte budget.
pub struct PrefixDigest {
    hasher: blake3::Hasher,
    remaining: u64,
    finished: bool,
}

impl PrefixDigest {
    /// The bytes fed so far.
    pub closed spec fn fed(&self) -> Seq<u8> {
        hashed_input(self.hasher)
    }

    /// How many more bytes may be fed.
    pub closed spec fn budget_left(&self) -> u64 {
        self.remaining
    }

    /// Whether the end of the input has been reached.
    pub closed spec fn at_end(&self) -> bool {
        self.finished
    }

    /// A digest that will take at most `limit` bytes (no limit when `None`).
    pub fn new(limit: Option<u64>) -> (d: PrefixDigest)
        ensures
            d.fed() == Seq::<u8>::empty(),
            d.budget_left() == match limit {
                Some(l) => l,
                None => u64::MAX,
            },
            !d.at_end(),
    {
        let remaining = match limit {
            Some(l) => l,
            None => u64::MAX,
        };
        PrefixDigest { hasher: hasher_new(), remaining, finished: false }
    }

    /// How many bytes to read next into a buffer of `buf_len` bytes: the
    /// smaller of the buffer and the budget, or 0 once the input is done.
    pub fn next_read_len(&self, buf_len: usize) -> (n: usize)
        ensures
            n == (if self.at_end() || self.budget_left() == 0 {
                0
            } else if (self.budget_left() as int) < (buf_len as int) {
                self.budget_left() as int
            } else {
                buf_len as int
            }),
    {
        if self.finished || self.remaining == 0 {
            0
        } else if (self.remaining as u128) < (buf_len as u128) {
            self.remaining as usize
        } else {
            buf_len
        }
    }

    /// Feeds the next bytes read; an empty read marks the end of the input.
    pub fn feed(&mut self, chunk: &[u8])
        requires
            chunk@.len() <= old(self).budget_left(),
        ensures
            chunk@.len() == 0 ==> final(self).fed() == old(self).fed() && final(self).at_end()
                && final(self).budget_left() == old(self).budget_left(),
            chunk@.len() > 0 ==> final(self).fed() == old(self).fed() + chunk@
                && final(self).budget_left() == old(self).budget_left() - chunk@.len()
                && final(self).at_end() == old(self).at_end(),
    {
        if chunk.len() == 0 {
            self.finished = true;
        } else {
            hasher_update(&mut self.hasher, chunk);
            self.remaining = self.remaining - chunk.len() as u64;
        }
    }

    /// The digest of everything fed.
    pub fn finish(&self) -> (d: [u8; 32])
        ensures
            d@ == blake3_digest(self.fed()),
    {
        hasher_finalize(&self.hasher)
    }
}

} // verus!
