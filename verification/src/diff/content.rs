//! The content of a file, reduced to a digest.
use vstd::prelude::*;

use super::{DiffStatus, HashError};

verus! {

/// How many bytes are read at a time.
pub const HASH_BUF_SIZE: usize = 65536;

/// How long the first byte of a file may take, in seconds.
pub const PROBE_TIMEOUT_SEC: u64 = 10;

/// `blake3::Hasher`: digests bytes as they come.
#[verifier::external_type_specification]
#[verifier::external_body]
pub struct ExHasher(blake3::Hasher);

/// The bytes that a hasher has taken in, in order. Nothing is said of a hasher
/// that works with a key or in the middle of an input.
pub uninterp spec fn absorbed(h: blake3::Hasher) -> Option<Seq<u8>>;

/// The BLAKE3 digest of some bytes, without a key.
pub uninterp spec fn blake3_digest(bytes: Seq<u8>) -> Seq<u8>;

/// `blake3::Hasher::new`: a hasher without a key that has taken in nothing.
#[verifier::external_body]
fn fresh_hasher() -> (r: blake3::Hasher)
    ensures
        absorbed(r) == Some(Seq::<u8>::empty()),
{
    blake3::Hasher::new()
}

/// `blake3::Hasher::update`: the bytes are taken in behind those before them. The
/// stack inside holds as many as a `u64` can count.
#[verifier::external_body]
fn feed(h: &mut blake3::Hasher, bytes: &[u8])
    requires
        absorbed(*old(h)) is Some,
        absorbed(*old(h))->0.len() + bytes@.len() <= u64::MAX,
    ensures
        absorbed(*final(h)) == Some(absorbed(*old(h))->0 + bytes@),
{
    h.update(bytes);
}

/// `blake3::Hasher::finalize`: the digest of all bytes taken in, thirty-two bytes
/// that depend on those alone.
#[verifier::external_body]
fn digest_of(h: &blake3::Hasher) -> (r: [u8; 32])
    requires
        absorbed(*h) is Some,
    ensures
        r@ == blake3_digest(absorbed(*h)->0),
{
    *h.finalize().as_bytes()
}

/// The digest of a content.
#[derive(Debug, Clone, Copy)]
pub struct Digest {
    /// Its bytes.
    pub bytes: [u8; 32],
}

/// A content that was read, or why it was not.
pub type Reading = Result<Digest, HashError>;

/// A content on its way through the hasher.
pub struct ContentRead {
    hasher: blake3::Hasher,
    count: u64,
}

impl ContentRead {
    #[verifier::type_invariant]
    spec fn counted(&self) -> bool {
        absorbed(self.hasher) is Some && absorbed(self.hasher)->0.len() == self.count
    }

    /// The bytes that were read.
    pub closed spec fn bytes(&self) -> Seq<u8> {
        absorbed(self.hasher)->0
    }

    /// The reading begins once the file could be opened.
    pub fn open(opened: bool) -> (r: Result<Self, HashError>)
        ensures
            match r {
                Ok(c) => opened && c.bytes() == Seq::<u8>::empty(),
                Err(e) => !opened && e == HashError::Failed,
            },
    {
        if !opened {
            return Err(HashError::Failed);
        }
        Ok(ContentRead { hasher: fresh_hasher(), count: 0 })
    }

    /// How many bytes were read.
    pub fn len(&self) -> (r: u64)
        ensures
            r == self.bytes().len(),
    {
        proof {
            use_type_invariant(self);
        }
        self.count
    }

    /// The reading after the next chunk: what was read, or nothing where the
    /// system refused. A cancelled comparison gives the file up. An empty chunk
    /// is the end of the file.
    pub fn next(self, stop: bool, chunk: Option<&[u8]>) -> (r: Result<Self, Reading>)
        requires
            chunk matches Some(c) ==> self.bytes().len() + c@.len() <= u64::MAX,
        ensures
            match chunk {
                Some(c) if !stop => if c@.len() == 0 {
                    r matches Err(Ok(d)) && d.bytes@ == blake3_digest(self.bytes())
                } else {
                    r matches Ok(next) && next.bytes() == self.bytes() + c@
                },
                _ => r matches Err(Err(e)) && e == HashError::Failed,
            },
    {
        proof {
            use_type_invariant(&self);
        }
        if stop {
            return Err(Err(HashError::Failed));
        }
        match chunk {
            Some(c) => {
                if c.len() == 0 {
                    return Err(Ok(Digest { bytes: digest_of(&self.hasher) }));
                }
                let mut hasher = self.hasher;
                let count: u64 = self.count + c.len() as u64;
                feed(&mut hasher, c);
                Ok(ContentRead { hasher, count })
            },
            None => Err(Err(HashError::Failed)),
        }
    }
}

/// Whether two digests are the same.
fn same_digest(a: &Digest, b: &Digest) -> (r: bool)
    ensures
        r == (a.bytes@ == b.bytes@),
{
    let mut i: usize = 0;
    while i < 32
        invariant
            i <= 32,
            forall|k: int| 0 <= k < i ==> a.bytes@[k] == b.bytes@[k],
        decreases 32 - i,
    {
        if a.bytes[i] != b.bytes[i] {
            assert(a.bytes@[i as int] != b.bytes@[i as int]);
            return false;
        }
        i = i + 1;
    }
    assert(a.bytes@ =~= b.bytes@);
    true
}

/// What two readings say of a pair of files. A file that cannot be read is not a
/// file that changed.
pub open spec fn content_status(a: Reading, b: Reading) -> DiffStatus {
    match (a, b) {
        (Ok(x), Ok(y)) => if x.bytes@ == y.bytes@ {
            DiffStatus::Same
        } else {
            DiffStatus::Diff
        },
        _ => DiffStatus::Unreadable,
    }
}

/// What two readings say of a pair of files.
pub fn compare_contents(a: &Reading, b: &Reading) -> (r: DiffStatus)
    ensures
        r == content_status(*a, *b),
{
    match a {
        Ok(x) => match b {
            Ok(y) => if same_digest(x, y) {
                DiffStatus::Same
            } else {
                DiffStatus::Diff
            },
            Err(_) => DiffStatus::Unreadable,
        },
        Err(_) => DiffStatus::Unreadable,
    }
}

/// Two files with the same bytes, both read to their end, are the same.
pub proof fn law_equal_contents_are_the_same(a: Digest, b: Digest, bytes: Seq<u8>)
    requires
        a.bytes@ == blake3_digest(bytes),
        b.bytes@ == blake3_digest(bytes),
    ensures
        content_status(Ok(a), Ok(b)) == DiffStatus::Same,
{
}

/// Contents that were both read are the same or differ, as their digests do; where one
/// was not read neither is said. Which side is which makes no difference.
pub proof fn law_readings_decide(a: Reading, b: Reading)
    ensures
        content_status(a, b) == DiffStatus::Same <==> (a matches Ok(x) && b matches Ok(y)
            && x.bytes@ == y.bytes@),
        content_status(a, b) == DiffStatus::Diff <==> (a matches Ok(x) && b matches Ok(y)
            && x.bytes@ != y.bytes@),
        content_status(a, b) == DiffStatus::Unreadable <==> a is Err || b is Err,
        content_status(a, b) == content_status(b, a),
{
}

/// What became of the attempt to open a file and read its first byte.
#[derive(Debug, Clone, Copy, PartialEq, Eq, Structural)]
pub enum Probe {
    /// The disk answers.
    Ready,
    /// The system refused.
    Refused,
    /// Nothing came back in time: whoever is reading is stuck.
    Silent,
    /// Whoever was reading is gone.
    Gone,
}

/// Whether the content can be read after the first byte; if not, why, and whether
/// a reader was left stuck.
pub fn probed(probe: Probe) -> (r: Result<(), (HashError, bool)>)
    ensures
        r == match probe {
            Probe::Ready => Ok::<(), (HashError, bool)>(()),
            Probe::Refused | Probe::Gone => Err((HashError::Failed, false)),
            Probe::Silent => Err((HashError::Timeout, true)),
        },
{
    match probe {
        Probe::Ready => Ok(()),
        Probe::Refused | Probe::Gone => Err((HashError::Failed, false)),
        Probe::Silent => Err((HashError::Timeout, true)),
    }
}

/// A content is read in pieces of sixty-four kibibytes, and a file that does not open
/// within ten seconds is given up.
pub proof fn law_how_a_content_is_read()
    ensures
        HASH_BUF_SIZE == 64 * 1024,
        PROBE_TIMEOUT_SEC == 10,
{
}

} // verus!
