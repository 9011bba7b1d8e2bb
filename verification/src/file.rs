//! The backing file as a value: the path it belongs to and its bytes.
//!
//! The pager reads and writes this image in place of a file handle. Reading
//! past the end returns fewer bytes than asked for; writing past the end
//! makes the file longer, and a gap left before the written bytes reads as
//! zero. Whoever owns the real file loads the image when a table is opened
//! and stores it when the table is closed.

use vstd::prelude::*;
use crate::row::zeros;

verus! {

/// The content of a file, and the path at which it is kept.
#[derive(Debug, Clone, PartialEq, Eq)]
pub struct FileImage {
    pub path: String,
    pub bytes: Vec<u8>,
}

/// The mathematical value of a file image.
pub struct FileData {
    pub path: Seq<char>,
    pub bytes: Seq<u8>,
}

impl View for FileImage {
    type V = FileData;

    open spec fn view(&self) -> FileData {
        FileData { path: self.path@, bytes: self.bytes@ }
    }
}

/// The smaller of two integers.
pub open spec fn min(a: int, b: int) -> int {
    if a <= b {
        a
    } else {
        b
    }
}

/// What a read of up to `count` bytes at `pos` returns: the bytes from `pos`
/// on, as far as the file has them.
pub open spec fn read_at(file: Seq<u8>, pos: int, count: int) -> Seq<u8>
    recommends
        0 <= pos,
        0 <= count,
{
    if pos >= file.len() {
        Seq::empty()
    } else {
        file.subrange(pos, min(pos + count, file.len() as int))
    }
}

/// The file after `data` is written at `pos`. Bytes outside the written range
/// stay; where the file ended before `pos`, the gap is zero.
pub open spec fn write_at(file: Seq<u8>, pos: int, data: Seq<u8>) -> Seq<u8>
    recommends
        0 <= pos,
{
    if data.len() == 0 {
        file
    } else {
        Seq::new(
            if file.len() >= pos + data.len() {
                file.len()
            } else {
                (pos + data.len()) as nat
            },
            |i: int|
                if pos <= i < pos + data.len() {
                    data[i - pos]
                } else if i < file.len() {
                    file[i]
                } else {
                    0u8
                },
        )
    }
}

impl FileData {
    /// The file with `data` written at `pos`.
    pub open spec fn write_at(self, pos: int, data: Seq<u8>) -> FileData {
        FileData { path: self.path, bytes: write_at(self.bytes, pos, data) }
    }
}

impl FileImage {
    /// The image of the file at `path` that holds `bytes`.
    pub fn new(path: &str, bytes: Vec<u8>) -> (file: FileImage)
        ensures
            file@ == (FileData { path: path@, bytes: bytes@ }),
    {
        FileImage { path: path.to_owned(), bytes }
    }

    /// The image of an empty file at `path`.
    pub fn empty(path: &str) -> (file: FileImage)
        ensures
            file@ == (FileData { path: path@, bytes: Seq::empty() }),
    {
        FileImage { path: path.to_owned(), bytes: Vec::new() }
    }

    /// Length of the file, in bytes.
    pub fn len(&self) -> (n: usize)
        ensures
            n == self@.bytes.len(),
    {
        self.bytes.len()
    }

    /// Reads up to `buf.len()` bytes at `pos` into the front of `buf`, and
    /// returns how many were read.
    pub fn read_at(&self, pos: usize, buf: &mut Vec<u8>) -> (n: usize)
        ensures
            n == read_at(self@.bytes, pos as int, old(buf).len() as int).len(),
            final(buf)@ == read_at(self@.bytes, pos as int, old(buf).len() as int) + old(buf)@.skip(
                n as int,
            ),
    {
        let ghost before = buf@;
        let ghost chunk = read_at(self@.bytes, pos as int, before.len() as int);
        if pos >= self.bytes.len() {
            assert(buf@ =~= chunk + before.skip(0));
            return 0;
        }
        let available: usize = self.bytes.len() - pos;
        let n: usize = if buf.len() < available {
            buf.len()
        } else {
            available
        };
        let mut i: usize = 0;
        while i < n
            invariant
                i <= n,
                n <= buf.len(),
                pos + n <= self.bytes.len(),
                buf.len() == before.len(),
                chunk == self@.bytes.subrange(pos as int, pos + n),
                buf@ == chunk.take(i as int) + before.skip(i as int),
            decreases n - i,
        {
            buf[i] = self.bytes[pos + i];
            assert(buf@ =~= chunk.take(i + 1) + before.skip(i + 1));
            i += 1;
        }
        assert(chunk.take(n as int) =~= chunk);
        n
    }

    /// Writes `data` at `pos`.
    pub fn write_at(&mut self, pos: usize, data: &[u8])
        requires
            pos + data.len() <= usize::MAX,
        ensures
            final(self)@ == old(self)@.write_at(pos as int, data@),
    {
        let ghost before = self.bytes@;
        let ghost after = write_at(before, pos as int, data@);
        if data.len() == 0 {
            return ;
        }
        while self.bytes.len() < pos
            invariant
                self.path == old(self).path,
                before.len() <= pos ==> self.bytes@ == before + zeros(
                    (self.bytes.len() - before.len()) as nat,
                ),
                before.len() <= pos ==> before.len() <= self.bytes.len() <= pos,
                before.len() > pos ==> self.bytes@ == before,
            decreases pos - self.bytes.len(),
        {
            self.bytes.push(0);
            assert(self.bytes@ =~= before + zeros((self.bytes.len() - before.len()) as nat));
        }
        let ghost gapless = self.bytes@;
        let mut i: usize = 0;
        while i < data.len()
            invariant
                i <= data.len(),
                pos + data.len() <= usize::MAX,
                self.path == old(self).path,
                pos <= gapless.len(),
                self.bytes.len() >= gapless.len(),
                self.bytes.len() >= pos + i,
                self.bytes.len() == if gapless.len() >= pos + i {
                    gapless.len()
                } else {
                    (pos + i) as nat
                },
                forall|j: int|
                    0 <= j < self.bytes.len() ==> self.bytes@[j] == if pos <= j < pos + i {
                        data@[j - pos]
                    } else {
                        gapless[j]
                    },
            decreases data.len() - i,
        {
            if pos + i < self.bytes.len() {
                self.bytes[pos + i] = data[i];
            } else {
                self.bytes.push(data[i]);
            }
            i += 1;
        }
        assert(self.bytes@ =~= after);
    }
}

} // verus!
