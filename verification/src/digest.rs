//! Streaming SHA-1 over the bytes of an archive entry.

use crate::text::is_lower_hex;
use crypto::digest::Digest;
use crypto::sha1::Sha1;
use vstd::prelude::*;
use vstd::slice::slice_subrange;

verus! {

/// The number of bytes read from an entry at a time unless told otherwise.
pub const BUFFER_SIZE: usize = 8192;

/// The longest message that one digest can absorb: its length in bits must
/// fit in 64 bits.
pub const MAX_MESSAGE_LEN: u64 = 0x1fff_ffff_ffff_ffff;

/// `crypto::sha1::Sha1`, the state of a SHA-1 computation. Nothing inside it
/// is visible here.
#[verifier::external_type_specification]
#[verifier::external_body]
pub struct ExSha1(crypto::sha1::Sha1);

/// The message that a SHA-1 state has absorbed: the inputs given to it since
/// it was made, one after the other.
pub uninterp spec fn sha1_message(state: Sha1) -> Seq<u8>;

/// Whether the digest has been read from a SHA-1 state, after which it takes
/// no more input.
pub uninterp spec fn sha1_finalized(state: Sha1) -> bool;

/// The SHA-1 digest of `message`, in hexadecimal.
pub uninterp spec fn sha1_hex(message: Seq<u8>) -> Seq<char>;

/// The form of a digest: 40 hex digits in lower case.
pub open spec fn is_digest(hex: Seq<char>) -> bool {
    hex.len() == 40 && is_lower_hex(hex)
}

/// Calls `crypto::sha1::Sha1::new`. Trusted: the new state has absorbed
/// nothing and its digest has not been read.
#[verifier::external_body]
fn sha1_new() -> (state: Sha1)
    ensures
        sha1_message(state) == Seq::<u8>::empty(),
        !sha1_finalized(state),
{
    Sha1::new()
}

/// Calls `crypto::digest::Digest::input` on a `Sha1`. Trusted: the chunk is
/// appended to the message absorbed so far. The call panics once the digest
/// has been read, and when the message would grow beyond
/// [`MAX_MESSAGE_LEN`]; both are excluded here.
#[verifier::external_body]
fn sha1_input(state: &mut Sha1, chunk: &[u8])
    requires
        !sha1_finalized(*old(state)),
        sha1_message(*old(state)).len() + chunk@.len() <= MAX_MESSAGE_LEN,
    ensures
        sha1_message(*final(state)) == sha1_message(*old(state)) + chunk@,
        !sha1_finalized(*final(state)),
{
    state.input(chunk)
}

/// Calls `crypto::digest::Digest::result_str` on a `Sha1`. Trusted: the
/// string depends on the absorbed message alone, and is made of 40 hex
/// digits in lower case; the state keeps its message and counts as read.
#[verifier::external_body]
fn sha1_result_str(state: &mut Sha1) -> (hex: String)
    ensures
        hex@ == sha1_hex(sha1_message(*old(state))),
        is_digest(hex@),
        sha1_message(*final(state)) == sha1_message(*old(state)),
        sha1_finalized(*final(state)),
{
    state.result_str()
}

/// The digest state of one archive entry. Each entry gets a state of its
/// own; nothing is shared between entries.
pub struct EntryDigest {
    state: Sha1,
    absorbed: u64,
}

impl EntryDigest {
    #[verifier::type_invariant]
    spec fn inv(self) -> bool {
        &&& !sha1_finalized(self.state)
        &&& self.absorbed == sha1_message(self.state).len()
        &&& self.absorbed <= MAX_MESSAGE_LEN
    }

    /// The bytes absorbed so far, in the order in which they came.
    pub closed spec fn message(&self) -> Seq<u8> {
        sha1_message(self.state)
    }

    /// A state that has absorbed nothing.
    pub fn new() -> (d: EntryDigest)
        ensures
            d.message() == Seq::<u8>::empty(),
    {
        EntryDigest { state: sha1_new(), absorbed: 0 }
    }

    /// The number of bytes absorbed so far.
    pub fn len(&self) -> (n: u64)
        ensures
            n == self.message().len(),
            n <= MAX_MESSAGE_LEN,
    {
        proof {
            use_type_invariant(self);
        }
        self.absorbed
    }

    /// Absorbs `chunk`.
    pub fn update(&mut self, chunk: &[u8])
        requires
            old(self).message().len() + chunk@.len() <= MAX_MESSAGE_LEN,
        ensures
            final(self).message() == old(self).message() + chunk@,
    {
        proof {
            use_type_invariant(&*self);
        }
        let mut state = self.state;
        sha1_input(&mut state, chunk);
        *self = EntryDigest { state, absorbed: self.absorbed + chunk.len() as u64 };
    }

    /// Absorbs `chunk` if the message stays within [`MAX_MESSAGE_LEN`], and
    /// says whether it did; otherwise the state is left as it was.
    pub fn try_update(&mut self, chunk: &[u8]) -> (absorbed: bool)
        ensures
            absorbed == (old(self).message().len() + chunk@.len() <= MAX_MESSAGE_LEN),
            absorbed ==> final(self).message() == old(self).message() + chunk@,
            !absorbed ==> final(self).message() == old(self).message(),
    {
        proof {
            use_type_invariant(&*self);
        }
        if chunk.len() as u64 <= MAX_MESSAGE_LEN - self.absorbed {
            self.update(chunk);
            true
        } else {
            false
        }
    }

    /// The digest of everything absorbed, as 40 hex digits in lower case.
    pub fn finish(self) -> (hex: String)
        ensures
            hex@ == sha1_hex(self.message()),
            is_digest(hex@),
    {
        let mut state = self.state;
        sha1_result_str(&mut state)
    }
}

/// The SHA-1 digest of `data`, fed to the digest `chunk_size` bytes at a
/// time; a `chunk_size` of zero feeds all of it at once. The result does not
/// depend on `chunk_size`.
pub fn sha1_hex_chunked(data: &[u8], chunk_size: usize) -> (hex: String)
    requires
        data@.len() <= MAX_MESSAGE_LEN,
    ensures
        hex@ == sha1_hex(data@),
        is_digest(hex@),
{
    let n = data.len();
    let step: usize = if chunk_size == 0 { n } else { chunk_size };
    let mut digest = EntryDigest::new();
    let mut pos: usize = 0;
    while pos < n
        invariant
            pos <= n == data@.len() <= MAX_MESSAGE_LEN,
            step > 0 || n == 0,
            digest.message() == data@.take(pos as int),
        decreases n - pos,
    {
        let take = if n - pos < step { n - pos } else { step };
        let chunk = slice_subrange(data, pos, pos + take);
        digest.update(chunk);
        assert(data@.take(pos as int) + data@.subrange(pos as int, pos + take)
            =~= data@.take(pos + take));
        pos = pos + take;
    }
    assert(data@.take(n as int) =~= data@);
    digest.finish()
}

} // verus!
