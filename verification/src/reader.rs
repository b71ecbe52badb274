//! Reading one byte range of a blob.

use vstd::prelude::*;
use crate::error::BuildError;
use crate::keyed::Keyed;

verus! {

/// The bytes of one blob, under the blob's identifier.
#[derive(Debug, PartialEq, Eq)]
pub struct BlobData {
    pub blob_id: String,
    pub data: Vec<u8>,
}

impl Keyed for BlobData {
    open spec fn key(&self) -> Option<Seq<char>> {
        Some(self.blob_id@)
    }

    fn has_key(&self, id: &String) -> (hit: bool) {
        self.blob_id == *id
    }
}

/// The bytes `[offset, offset + size)` of `data`, if `data` holds them all.
/// An empty range is always held.
pub open spec fn range_of(data: Seq<u8>, offset: u64, size: u32) -> Option<Seq<u8>> {
    if size == 0 {
        Some(Seq::empty())
    } else if offset + size <= data.len() {
        Some(data.subrange(offset as int, offset + size))
    } else {
        None
    }
}

/// A reader of the byte range `[start, end)` of a blob. It hands out the
/// bytes of the range in order and nothing beyond them.
#[derive(Debug)]
pub struct BlobNodeReader<'a> {
    blob: &'a [u8],
    start: u64,
    end: u64,
    position: u64,
}

impl<'a> BlobNodeReader<'a> {
    /// The bytes of the blob that is read.
    pub closed spec fn blob(&self) -> Seq<u8> {
        self.blob@
    }

    /// The first offset of the range.
    pub closed spec fn start(&self) -> u64 {
        self.start
    }

    /// The offset behind the last byte of the range.
    pub closed spec fn end(&self) -> u64 {
        self.end
    }

    /// The offset of the next byte to be read.
    pub closed spec fn position(&self) -> u64 {
        self.position
    }

    /// How many bytes a read into a buffer of length `want` yields: none once
    /// the cursor is at or past the end of the range, else as many as the
    /// buffer takes, the range still has and the blob still holds.
    pub open spec fn readable(&self, want: nat) -> nat {
        if self.position() >= self.end() || self.position() >= self.blob().len() {
            0
        } else {
            let in_range = (self.end() - self.position()) as nat;
            let in_blob = (self.blob().len() - self.position()) as nat;
            if want <= in_range && want <= in_blob {
                want
            } else if in_range <= in_blob {
                in_range
            } else {
                in_blob
            }
        }
    }

    /// The next `count` bytes at the cursor.
    pub open spec fn peek(&self, count: nat) -> Seq<u8> {
        if count == 0 {
            Seq::empty()
        } else {
            self.blob().subrange(self.position() as int, self.position() + count)
        }
    }

    /// A reader of the range `[start, end)` of `blob`, with its cursor at `start`.
    pub fn new(blob: &'a [u8], start: u64, end: u64) -> (reader: Self)
        ensures
            reader.blob() == blob@,
            reader.start() == start,
            reader.end() == end,
            reader.position() == start,
    {
        BlobNodeReader { blob, start, end, position: start }
    }

    /// The offset of the next byte to be read.
    pub fn cursor(&self) -> (position: u64)
        ensures
            position == self.position(),
    {
        self.position
    }

    /// Reads into the front of `buf` and moves the cursor past what was read.
    /// Returns the number of bytes read; the rest of `buf` keeps its content.
    pub fn read(&mut self, buf: &mut Vec<u8>) -> (count: usize)
        ensures
            count == old(self).readable(old(buf)@.len()),
            final(buf)@ == old(self).peek(count as nat) + old(buf)@.subrange(
                count as int,
                old(buf)@.len() as int,
            ),
            final(self).blob() == old(self).blob(),
            final(self).start() == old(self).start(),
            final(self).end() == old(self).end(),
            final(self).position() == old(self).position() + count,
    {
        if self.position >= self.end || self.position >= self.blob.len() as u64 {
            assert(buf@ =~= Seq::<u8>::empty() + buf@.subrange(0, buf@.len() as int));
            return 0;
        }
        let in_range: u64 = self.end - self.position;
        let in_blob: u64 = self.blob.len() as u64 - self.position;
        let want: u64 = buf.len() as u64;
        let count: u64 = if want <= in_range && want <= in_blob {
            want
        } else if in_range <= in_blob {
            in_range
        } else {
            in_blob
        };
        let base: usize = self.position as usize;
        let n: usize = count as usize;
        let ghost before = buf@;
        let mut i: usize = 0;
        while i < n
            invariant
                i <= n,
                n <= buf.len(),
                base + n <= self.blob.len(),
                buf@.len() == before.len(),
                buf@ =~= self.blob@.subrange(base as int, base + i) + before.subrange(i as int, before.len() as int),
            decreases n - i,
        {
            buf[i] = self.blob[base + i];
            i += 1;
        }
        self.position = self.position + count;
        assert(buf@ =~= old(self).peek(n as nat) + before.subrange(n as int, before.len() as int));
        n
    }

    /// Reads the `size` bytes at `offset` of `blob` through a reader of that
    /// range. Returns nothing where the blob does not hold them all.
    pub fn read_range(blob: &'a [u8], offset: u64, size: u32) -> (bytes: Option<Vec<u8>>)
        ensures
            match range_of(blob@, offset, size) {
                Some(range) => bytes matches Some(read) && read@ == range,
                None => bytes is None,
            },
    {
        let held: usize = blob.len();
        let end = match offset.checked_add(size as u64) {
            None => {
                assert(held <= u64::MAX);
                return None;
            },
            Some(end) => end,
        };
        let mut reader = BlobNodeReader::new(blob, offset, end);
        let mut buf: Vec<u8> = vec![0u8; size as usize];
        match reader.read_exact(&mut buf) {
            Err(_) => None,
            Ok(()) => Some(buf),
        }
    }

    /// Fills `buf` from the range, or reports that the range or the blob ends
    /// before `buf` is full.
    pub fn read_exact(&mut self, buf: &mut Vec<u8>) -> (done: Result<(), BuildError>)
        ensures
            done is Ok <==> old(self).readable(old(buf)@.len()) == old(buf)@.len(),
            done is Err ==> done == Err::<(), BuildError>(BuildError::UnexpectedEnd),
            done is Ok ==> final(buf)@ == old(self).peek(old(buf)@.len()),
            final(buf)@.len() == old(buf)@.len(),
            final(self).blob() == old(self).blob(),
            final(self).start() == old(self).start(),
            final(self).end() == old(self).end(),
            final(self).position() == old(self).position() + old(self).readable(old(buf)@.len()),
    {
        let count = self.read(buf);
        if count == buf.len() {
            assert(buf@ =~= old(self).peek(old(buf)@.len()));
            Ok(())
        } else {
            Err(BuildError::UnexpectedEnd)
        }
    }
}

} // verus!
