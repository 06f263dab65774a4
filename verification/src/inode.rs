//! The contents of one simulated file.
use vstd::prelude::*;

use crate::error::{efbig, Error};
use crate::path::copy_bytes;

verus! {

/// The larger of two integers.
pub open spec fn larger(a: int, b: int) -> int {
    if a >= b {
        a
    } else {
        b
    }
}

/// How many bytes a read of `want` bytes at `offset` yields: what the file holds from
/// there on, up to `want`, and none at or beyond the end.
pub open spec fn read_count(data: Seq<u8>, offset: int, want: int) -> int {
    if offset >= data.len() {
        0
    } else if data.len() - offset < want {
        data.len() - offset
    } else {
        want
    }
}

/// The bytes that a read of `want` bytes at `offset` yields.
pub open spec fn read_bytes(data: Seq<u8>, offset: int, want: int) -> Seq<u8> {
    Seq::new(read_count(data, offset, want) as nat, |i: int| data[offset + i])
}

/// A buffer whose front has been overwritten by `bytes`.
pub open spec fn filled(buf: Seq<u8>, bytes: Seq<u8>) -> Seq<u8> {
    Seq::new(buf.len(), |i: int| if i < bytes.len() { bytes[i] } else { buf[i] })
}

/// The contents after `bytes` were written at `offset`: the file is extended as needed, and
/// a gap before `offset` reads as zeros.
pub open spec fn written(data: Seq<u8>, offset: int, bytes: Seq<u8>) -> Seq<u8> {
    Seq::new(
        larger(data.len() as int, offset + bytes.len()) as nat,
        |i: int|
            if offset <= i < offset + bytes.len() {
                bytes[i - offset]
            } else if i < data.len() {
                data[i]
            } else {
                0
            },
    )
}

/// The contents cut or zero-extended to `size` bytes.
pub open spec fn resized(data: Seq<u8>, size: int) -> Seq<u8> {
    Seq::new(
        size as nat,
        |i: int|
            if i < data.len() {
                data[i]
            } else {
                0
            },
    )
}

/// The contents grown to at least `needed` bytes, never cut.
pub open spec fn grown(data: Seq<u8>, needed: int) -> Seq<u8> {
    resized(data, larger(data.len() as int, needed))
}

/// A file as a mathematical value: the path it was created under and what it holds.
#[verifier::ext_equal]
pub struct INodeView {
    pub path: Seq<u8>,
    pub data: Seq<u8>,
}

/// A file of the simulated file system.
pub struct INode {
    path: Vec<u8>,
    data: Vec<u8>,
}

impl View for INode {
    type V = INodeView;

    closed spec fn view(&self) -> INodeView {
        INodeView { path: self.path@, data: self.data@ }
    }
}

impl INode {
    /// Creates an empty file.
    pub fn new(path: &[u8]) -> (inode: INode)
        ensures
            inode@ == (INodeView { path: path@, data: Seq::empty() }),
    {
        INode { path: copy_bytes(path), data: Vec::new() }
    }

    /// Returns the path that the file was created under.
    pub fn path(&self) -> (path: &[u8])
        ensures
            path@ == self@.path,
    {
        self.path.as_slice()
    }

    /// Returns what the file holds.
    pub fn data(&self) -> (data: &[u8])
        ensures
            data@ == self@.data,
    {
        self.data.as_slice()
    }

    /// Returns the size of the file in bytes.
    pub fn size(&self) -> (size: u64)
        ensures
            size == self@.data.len(),
    {
        self.data.len() as u64
    }

    /// Drops everything that the file holds.
    pub fn truncate(&mut self)
        ensures
            final(self)@ == (INodeView { data: Seq::empty(), ..old(self)@ }),
    {
        self.data.clear();
    }

    /// Reads bytes starting at `offset` into the front of `buf` and returns their number.
    /// Reads that start at or beyond the end of the file return 0.
    pub fn read_at(&self, buf: &mut [u8], offset: u64) -> (count: usize)
        ensures
            count == read_count(self@.data, offset as int, old(buf)@.len() as int),
            final(buf)@ == filled(
                old(buf)@,
                read_bytes(self@.data, offset as int, old(buf)@.len() as int),
            ),
    {
        if offset >= self.data.len() as u64 {
            assert(buf@ =~= filled(
                buf@,
                read_bytes(self@.data, offset as int, buf@.len() as int),
            ));
            return 0;
        }
        let start: usize = offset as usize;
        let rest: usize = self.data.len() - start;
        let count: usize = if rest < buf.len() {
            rest
        } else {
            buf.len()
        };
        let ghost before = buf@;
        let mut i: usize = 0;
        while i < count
            invariant
                i <= count,
                count <= before.len(),
                count <= rest,
                start + rest == self.data.len(),
                buf@.len() == before.len(),
                forall|k: int| 0 <= k < i ==> buf@[k] == self.data@[start + k],
                forall|k: int| i <= k < buf@.len() ==> buf@[k] == before[k],
            decreases count - i,
        {
            buf[i] = self.data[start + i];
            i = i + 1;
        }
        assert(buf@ =~= filled(
            before,
            read_bytes(self@.data, offset as int, before.len() as int),
        ));
        count
    }

    /// Writes `buf` starting at `offset`, zero-filling any gap before `offset` and
    /// extending the file as needed.
    pub fn write_at(&mut self, buf: &[u8], offset: u64)
        requires
            offset + buf@.len() <= isize::MAX,
        ensures
            final(self)@ == (INodeView {
                data: written(old(self)@.data, offset as int, buf@),
                ..old(self)@
            }),
    {
        let start: usize = offset as usize;
        let ghost before = self.data@;
        if start > self.data.len() {
            self.data.resize(start, 0);
        }
        let ghost padded = self.data@;
        proof {
            assert(padded.len() == larger(before.len() as int, start as int));
            assert forall|k: int| 0 <= k < padded.len() implies padded[k] == (if k < before.len() {
                before[k]
            } else {
                0
            }) by {
                if start > before.len() && k < before.len() {
                    assert(padded.subrange(0, before.len() as int)[k] == before[k]);
                }
            }
        }
        let mut i: usize = 0;
        while i < buf.len()
            invariant
                i <= buf@.len(),
                start + buf@.len() <= isize::MAX,
                start <= padded.len(),
                self.path@ == old(self).path@,
                self.data@.len() == larger(padded.len() as int, start + i),
                forall|k: int| start <= k < start + i ==> self.data@[k] == buf@[k - start],
                forall|k: int|
                    0 <= k < padded.len() && !(start <= k < start + i) ==> self.data@[k]
                        == padded[k],
            decreases buf@.len() - i,
        {
            let at: usize = start + i;
            if at < self.data.len() {
                self.data[at] = buf[i];
            } else {
                self.data.push(buf[i]);
            }
            i = i + 1;
        }
        assert forall|k: int| 0 <= k < self.data@.len() implies self.data@[k] == written(
            before,
            offset as int,
            buf@,
        )[k] by {
            if !(start <= k < start + buf@.len()) {
                assert(self.data@[k] == padded[k]);
            }
        }
        assert(self.data@ =~= written(before, offset as int, buf@));
    }

    /// Cuts or zero-extends the file to `size` bytes.
    pub fn set_len(&mut self, size: u64)
        requires
            size <= isize::MAX,
        ensures
            final(self)@ == (INodeView {
                data: resized(old(self)@.data, size as int),
                ..old(self)@
            }),
    {
        let ghost before = self.data@;
        let target: usize = size as usize;
        self.data.resize(target, 0);
        proof {
            assert forall|k: int| 0 <= k < size && k < before.len() implies self.data@[k]
                == before[k] by {
                if size > before.len() {
                    assert(self.data@.subrange(0, before.len() as int)[k] == before[k]);
                }
            }
            assert(self.data@ =~= resized(before, size as int));
        }
    }

    /// Grows the file so that `offset + len` bytes are allocated, zero-filling new space.
    /// Never shrinks the file. A size that no file can be addressed by is `EFBIG`.
    pub fn fallocate(&mut self, offset: u64, len: u64) -> (result: Result<(), Error>)
        requires
            offset + len <= isize::MAX || offset + len > usize::MAX,
        ensures
            result == (if offset + len > usize::MAX {
                Err::<(), Error>(Error::Os(crate::error::efbig_number()))
            } else {
                Ok(())
            }),
            final(self)@ == (INodeView {
                data: if offset + len > usize::MAX {
                    old(self)@.data
                } else {
                    grown(old(self)@.data, offset + len)
                },
                ..old(self)@
            }),
    {
        match offset.checked_add(len) {
            None => Err(Error::Os(efbig())),
            Some(needed) => {
                if needed > usize::MAX as u64 {
                    return Err(Error::Os(efbig()));
                }
                if (self.data.len() as u64) < needed {
                    self.set_len(needed);
                } else {
                    assert(self.data@ =~= grown(self.data@, offset + len));
                }
                Ok(())
            },
        }
    }
}

} // verus!
