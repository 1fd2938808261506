//! Fingerprinting a log generation: its size and times, and the BLAKE3
//! hashes of its first 64 KiB, of the whole file, and of the bytes a
//! previously seen generation had. The caller reads the file and hands the
//! bytes over in chunks, in order.

use vstd::prelude::*;

use crate::external::{blake3_digest, blake3_hasher_input, hasher_finalize, hasher_new, hasher_update};
use crate::scan::model::FileFingerprint;

verus! {

/// How many leading bytes the prefix hash covers.
pub const PREFIX_BYTES: u64 = 65_536;

/// What the file system reported of a file at one moment.
#[derive(Clone, Copy, PartialEq, Eq, Debug, Structural)]
pub struct Observation {
    pub len: u64,
    /// The modification time in milliseconds since the Unix epoch, if known.
    pub modified_ms: Option<i64>,
}

/// Two observations of the same unchanged file: same length and modification time.
pub fn same_observation(a: Observation, b: Observation) -> (r: bool)
    ensures
        r == (a.len == b.len && a.modified_ms == b.modified_ms),
{
    a.len == b.len && a.modified_ms == b.modified_ms
}

/// Why a fingerprint was refused.
#[derive(Clone, Copy, PartialEq, Eq, Debug, Structural)]
pub enum FingerprintError {
    /// The file changed while it was read.
    FileChanged,
}

pub open spec fn prefix_len(len: nat) -> int {
    if len < PREFIX_BYTES { len as int } else { PREFIX_BYTES as int }
}

/// The hashes of a file read so far.
pub struct FingerprintAccumulator {
    prefix: blake3::Hasher,
    full: blake3::Hasher,
    comparison: Option<blake3::Hasher>,
    previous_size: Option<u64>,
    bytes_read: u64,
    seen: Ghost<Seq<u8>>,
}

impl FingerprintAccumulator {
    /// The bytes absorbed so far, in order.
    pub closed spec fn seen(&self) -> Seq<u8> {
        self.seen@
    }

    /// The size of the generation seen before, if any.
    pub closed spec fn previous(&self) -> Option<u64> {
        self.previous_size
    }

    pub closed spec fn wf(&self) -> bool {
        &&& self.seen@.len() == self.bytes_read
        &&& blake3_hasher_input(self.full) == self.seen@
        &&& blake3_hasher_input(self.prefix) == self.seen@.take(prefix_len(self.seen@.len()))
        &&& match self.previous_size {
            Some(n) => (self.comparison matches Some(h) && blake3_hasher_input(h) == self.seen@.take(
                if n < self.seen@.len() { n as int } else { self.seen@.len() as int },
            )),
            None => self.comparison is None,
        }
    }

    /// A fingerprint that has read nothing; `previous_size` is the size of
    /// the generation stored before, whose bytes are hashed separately.
    pub fn new(previous_size: Option<u64>) -> (r: FingerprintAccumulator)
        ensures
            r.wf(),
            r.seen() == Seq::<u8>::empty(),
            r.previous() == previous_size,
    {
        let comparison = match previous_size {
            Some(_) => Some(hasher_new()),
            None => None,
        };
        let r = FingerprintAccumulator {
            prefix: hasher_new(),
            full: hasher_new(),
            comparison,
            previous_size,
            bytes_read: 0,
            seen: Ghost(Seq::empty()),
        };
        assert(r.seen@.take(0) =~= Seq::<u8>::empty());
        r
    }

    /// Absorbs the next chunk of the file.
    pub fn absorb(&mut self, chunk: &[u8])
        requires
            old(self).wf(),
            old(self).seen().len() + chunk@.len() <= u64::MAX,
        ensures
            final(self).wf(),
            final(self).seen() == old(self).seen() + chunk@,
            final(self).previous() == old(self).previous(),
    {
        let ghost before = self.seen@;
        let ghost after = before + chunk@;
        let read = chunk.len() as u64;
        hasher_update(&mut self.full, chunk);
        if self.bytes_read < PREFIX_BYTES {
            let room = PREFIX_BYTES - self.bytes_read;
            let take: usize = if read < room { chunk.len() } else { room as usize };
            let part = vstd::slice::slice_subrange(chunk, 0, take);
            hasher_update(&mut self.prefix, part);
            assert(before.take(prefix_len(before.len())) + part@ =~= after.take(prefix_len(after.len())));
        } else {
            assert(before.take(prefix_len(before.len())) =~= after.take(prefix_len(after.len())));
        }
        match self.previous_size {
            Some(n) => {
                if self.bytes_read < n {
                    let room = n - self.bytes_read;
                    let take: usize = if read < room { chunk.len() } else { room as usize };
                    let part = vstd::slice::slice_subrange(chunk, 0, take);
                    let mut h = self.comparison.take().unwrap();
                    hasher_update(&mut h, part);
                    self.comparison = Some(h);
                    assert(before.take(before.len() as int) + part@ =~= after.take(
                        if n < after.len() { n as int } else { after.len() as int },
                    ));
                } else {
                    assert(before.take(n as int) =~= after.take(n as int));
                }
            },
            None => {},
        }
        self.bytes_read = self.bytes_read + read;
        self.seen = Ghost(after);
        assert(blake3_hasher_input(self.full) == after);
    }

    /// The fingerprint of what was read: refused when the file was not
    /// exactly `opened.len` bytes long or its observation changed after
    /// opening. The comparison hash exists when the previous size is known
    /// and at most the bytes read.
    pub fn finish(self, opened: Observation, after: Observation, birthtime_ms: Option<i64>) -> (r: Result<
        FileFingerprint,
        FingerprintError,
    >)
        requires
            self.wf(),
        ensures
            r is Err <==> (self.seen().len() != opened.len || !(opened.len == after.len && opened.modified_ms
                == after.modified_ms)),
            r matches Ok(f) ==> {
                &&& f.size_bytes == opened.len
                &&& f.modified_at_ms == match opened.modified_ms {
                    Some(m) => m,
                    None => 0,
                }
                &&& f.birthtime_ms == birthtime_ms
                &&& f.prefix_hash@ == blake3_digest(self.seen().take(prefix_len(self.seen().len())))
                &&& f.full_hash@ == blake3_digest(self.seen())
                &&& match self.previous() {
                    Some(n) => if n <= self.seen().len() {
                        f.comparison_prefix_len == Some(n) && (f.comparison_prefix_hash matches Some(c) && c@
                            == blake3_digest(self.seen().take(n as int)))
                    } else {
                        f.comparison_prefix_len is None && f.comparison_prefix_hash is None
                    },
                    None => f.comparison_prefix_len is None && f.comparison_prefix_hash is None,
                }
            },
    {
        if !same_observation(opened, after) || self.bytes_read != opened.len {
            return Err(FingerprintError::FileChanged);
        }
        let (comparison_prefix_len, comparison_prefix_hash) = match (self.previous_size, &self.comparison) {
            (Some(n), Some(h)) => {
                if n <= self.bytes_read {
                    (Some(n), Some(hasher_finalize(h)))
                } else {
                    (None, None)
                }
            },
            _ => (None, None),
        };
        Ok(
            FileFingerprint {
                size_bytes: opened.len,
                modified_at_ms: match opened.modified_ms {
                    Some(m) => m,
                    None => 0,
                },
                birthtime_ms,
                prefix_hash: hasher_finalize(&self.prefix),
                full_hash: hasher_finalize(&self.full),
                comparison_prefix_len,
                comparison_prefix_hash,
            },
        )
    }
}

} // verus!
