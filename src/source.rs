use vstd::prelude::*;
use vstd::slice::{slice_subrange, slice_to_vec};

use crate::error::Errors;

verus! {

/// Where a seek is measured from.
#[derive(Clone, Copy, Debug, PartialEq, Eq)]
pub enum SeekFrom {
    /// From the start, forward.
    Start(u64),
    /// From the end, by a signed amount.
    End(i64),
    /// From the current position, by a signed amount.
    Current(i64),
}

/// The position that a seek asks for, before it is checked.
pub open spec fn seek_target(len: int, pos: int, from: SeekFrom) -> int {
    match from {
        SeekFrom::Start(p) => p as int,
        SeekFrom::End(d) => len + d,
        SeekFrom::Current(d) => pos + d,
    }
}

/// The bytes that a read of at most `n` bytes at `pos` hands out.
pub open spec fn read_span(data: Seq<u8>, pos: nat, n: int) -> Seq<u8> {
    if pos >= data.len() {
        Seq::empty()
    } else if pos + n <= data.len() {
        data.subrange(pos as int, pos + n)
    } else {
        data.subrange(pos as int, data.len() as int)
    }
}

/// The bytes of a source from its position to its end.
pub open spec fn rest_of(data: Seq<u8>, pos: nat) -> Seq<u8> {
    if pos >= data.len() {
        Seq::empty()
    } else {
        data.subrange(pos as int, data.len() as int)
    }
}

/// A seekable source of bytes held in memory, with a read position that may
/// stand past the end.
pub struct Source {
    bytes: Vec<u8>,
    pos: u64,
}

impl Source {
    /// The bytes of the source.
    pub closed spec fn data(&self) -> Seq<u8> {
        self.bytes@
    }

    /// The current read position.
    pub closed spec fn pos(&self) -> nat {
        self.pos as nat
    }

    /// The source is well formed: its length fits in a `u64`.
    pub closed spec fn wf(&self) -> bool {
        self.bytes@.len() <= u64::MAX && self.bytes@.len() <= usize::MAX
    }

    /// The length of a well-formed source fits in a `usize` and a `u64`.
    pub proof fn lemma_len_bound(&self)
        requires
            self.wf(),
        ensures
            self.data().len() <= usize::MAX,
            self.data().len() <= u64::MAX,
    {
    }

    /// A source over `bytes`, positioned at the start.
    pub fn new(bytes: Vec<u8>) -> (r: Source)
        requires
            bytes@.len() <= u64::MAX,
        ensures
            r.wf(),
            r.data() == bytes@,
            r.pos() == 0,
    {
        let _ = bytes.len();
        Source { bytes, pos: 0 }
    }

    /// The number of bytes of the source.
    pub fn len(&self) -> (r: u64)
        requires
            self.wf(),
        ensures
            r == self.data().len(),
    {
        self.bytes.len() as u64
    }

    /// The current read position.
    pub fn position(&self) -> (r: u64)
        ensures
            r == self.pos(),
    {
        self.pos
    }

    /// Reads at most `n` bytes from the current position and advances past them.
    pub fn read(&mut self, n: u64) -> (r: Vec<u8>)
        requires
            old(self).wf(),
        ensures
            final(self).wf(),
            final(self).data() == old(self).data(),
            r@ == read_span(old(self).data(), old(self).pos(), n as int),
            final(self).pos() == old(self).pos() + r@.len(),
    {
        let len = self.bytes.len() as u64;
        if self.pos >= len {
            return Vec::new();
        }
        let avail = len - self.pos;
        let count = if n <= avail { n } else { avail };
        let start = self.pos as usize;
        let end = (self.pos + count) as usize;
        let part = slice_subrange(self.bytes.as_slice(), start, end);
        let out = slice_to_vec(part);
        self.pos = self.pos + count;
        out
    }

    /// Moves the read position. A target before the start or past `u64::MAX`
    /// is refused and leaves the position as it was.
    pub fn seek(&mut self, from: SeekFrom) -> (r: Result<u64, Errors>)
        requires
            old(self).wf(),
        ensures
            final(self).wf(),
            final(self).data() == old(self).data(),
            ({
                let t = seek_target(old(self).data().len() as int, old(self).pos() as int, from);
                if 0 <= t <= u64::MAX {
                    r == Ok::<u64, Errors>(t as u64) && final(self).pos() == t
                } else {
                    r is Err && final(self).pos() == old(self).pos()
                }
            }),
    {
        let target: i128 = match from {
            SeekFrom::Start(p) => p as i128,
            SeekFrom::End(d) => self.bytes.len() as i128 + d as i128,
            SeekFrom::Current(d) => self.pos as i128 + d as i128,
        };
        if target < 0 || target > u64::MAX as i128 {
            return Err(Errors::IO("invalid seek to a negative or overflowing position".to_owned()));
        }
        self.pos = target as u64;
        Ok(self.pos)
    }
}

} // verus!
