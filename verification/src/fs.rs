//! The simulated file system: per-node files, open file handles and raw descriptors.
//!
//! Files live on a node and are never removed, so a file is told apart by its place among
//! the node's files. A [`File`] and a descriptor both refer to that place: whatever one of
//! them writes, every other one reads.
use std::collections::HashMap;

use vstd::prelude::*;

use crate::error::{ebadf, ebadf_number, Error};
use crate::inode::{filled, grown, read_bytes, read_count, resized, written, INode, INodeView};
use crate::path::{components, copy_bytes, same_path};

verus! {

broadcast use vstd::std_specs::hash::group_hash_axioms;

/// A simulated raw file descriptor.
pub type RawFd = i32;

/// Identifies a node of the simulation.
pub type NodeId = u64;

/// What a descriptor stands for: the place of a file on the node, and whether it may be
/// written through this descriptor.
#[derive(Debug, Clone, Copy, PartialEq, Eq, Structural)]
pub struct FdEntry {
    pub inode: usize,
    pub writable: bool,
}

/// A descriptor table as a mathematical value.
#[verifier::ext_equal]
pub struct FdTableView {
    pub next: RawFd,
    pub map: Map<RawFd, FdEntry>,
}

impl FdTableView {
    /// Every descriptor in use lies past the standard streams and was handed out before, and
    /// stands for one of the node's `files` files.
    pub open spec fn wf(self, files: nat) -> bool {
        &&& self.next >= 3
        &&& forall|fd: RawFd| #[trigger]
            self.map.contains_key(fd) ==> 3 <= fd < self.next && self.map[fd].inode < files
    }

    /// The table after its next descriptor was handed out for `entry`.
    pub open spec fn registered(self, entry: FdEntry) -> FdTableView {
        FdTableView {
            next: (self.next + 1) as RawFd,
            map: self.map.insert(self.next, entry),
        }
    }

    /// The table after a descriptor was taken out of use.
    pub open spec fn unregistered(self, fd: RawFd) -> FdTableView {
        FdTableView { map: self.map.remove(fd), ..self }
    }
}

/// Per-node table mapping simulated raw file descriptors to open files.
pub struct FdTable {
    next: RawFd,
    map: HashMap<RawFd, FdEntry>,
}

impl View for FdTable {
    type V = FdTableView;

    closed spec fn view(&self) -> FdTableView {
        FdTableView { next: self.next, map: self.map@ }
    }
}

impl FdTable {
    /// Creates an empty table. Descriptors start past the conventional standard streams.
    pub fn new() -> (table: FdTable)
        ensures
            table@ == (FdTableView { next: 3, map: Map::empty() }),
    {
        FdTable { next: 3, map: HashMap::new() }
    }

    /// Returns whether there is a descriptor left to hand out.
    pub fn has_free(&self) -> (free: bool)
        ensures
            free == (self@.next < RawFd::MAX),
    {
        self.next < RawFd::MAX
    }

    /// Hands out the next descriptor for a file.
    pub fn register(&mut self, inode: usize, writable: bool) -> (fd: RawFd)
        requires
            old(self)@.next < RawFd::MAX,
        ensures
            fd == old(self)@.next,
            final(self)@ == old(self)@.registered(FdEntry { inode, writable }),
    {
        let fd = self.next;
        self.next = self.next + 1;
        self.map.insert(fd, FdEntry { inode, writable });
        fd
    }

    /// Takes a descriptor out of use. It is never handed out again.
    pub fn unregister(&mut self, fd: RawFd)
        ensures
            final(self)@ == old(self)@.unregistered(fd),
    {
        self.map.remove(&fd);
    }

    /// Looks a descriptor up.
    pub fn get(&self, fd: RawFd) -> (entry: Option<FdEntry>)
        ensures
            entry == (if self@.map.contains_key(fd) {
                Some(self@.map[fd])
            } else {
                None
            }),
    {
        match self.map.get(&fd) {
            Some(entry) => Some(*entry),
            None => None,
        }
    }
}

/// An open file handle as a mathematical value.
#[verifier::ext_equal]
pub struct FileView {
    pub inode: usize,
    pub can_write: bool,
    pub fd: Option<RawFd>,
}

/// A node's file system as a mathematical value.
#[verifier::ext_equal]
pub struct NodeView {
    pub inodes: Seq<INodeView>,
    pub fds: FdTableView,
}

impl NodeView {
    /// A node without files.
    pub open spec fn init() -> NodeView {
        NodeView {
            inodes: Seq::empty(),
            fds: FdTableView { next: 3, map: Map::empty() },
        }
    }

    /// Whether `path` names the file at place `i`.
    pub open spec fn names(self, path: Seq<u8>, i: int) -> bool {
        0 <= i < self.inodes.len() && components(self.inodes[i].path) == components(path)
    }

    /// The place of the file that `path` names, if there is one.
    pub open spec fn lookup(self, path: Seq<u8>) -> Option<int> {
        if exists|i: int| self.names(path, i) {
            Some(choose|i: int| self.names(path, i))
        } else {
            None
        }
    }

    /// No path names two files, and every descriptor in use stands for a file.
    pub open spec fn wf(self) -> bool {
        &&& forall|i: int, j: int|
            #![trigger self.inodes[i], self.inodes[j]]
            0 <= i < self.inodes.len() && 0 <= j < self.inodes.len() && components(
                self.inodes[i].path,
            ) == components(self.inodes[j].path) ==> i == j
        &&& self.fds.wf(self.inodes.len())
    }

    /// Whether a handle was opened here: its file exists, and its descriptor, once it has
    /// one, stands for that file.
    pub open spec fn holds(self, file: FileView) -> bool {
        &&& file.inode < self.inodes.len()
        &&& file.fd matches Some(fd) ==> self.fds.map.contains_key(fd) && self.fds.map[fd] == (
        FdEntry { inode: file.inode, writable: file.can_write })
    }

    /// The contents of the file at place `i`.
    pub open spec fn data(self, i: int) -> Seq<u8> {
        self.inodes[i].data
    }

    /// The node after the file at place `i` came to hold `data`.
    pub open spec fn with_data(self, i: int, data: Seq<u8>) -> NodeView {
        NodeView {
            inodes: self.inodes.update(i, INodeView { data, ..self.inodes[i] }),
            ..self
        }
    }

    /// The node after `path` was created: the file it names is emptied, or an empty one is
    /// added behind the others.
    pub open spec fn created(self, path: Seq<u8>) -> NodeView {
        match self.lookup(path) {
            Some(i) => self.with_data(i, Seq::empty()),
            None => NodeView {
                inodes: self.inodes.push(INodeView { path, data: Seq::empty() }),
                ..self
            },
        }
    }

    /// The place of the file that creating `path` opens.
    pub open spec fn created_at(self, path: Seq<u8>) -> int {
        match self.lookup(path) {
            Some(i) => i,
            None => self.inodes.len() as int,
        }
    }

    /// The node after the next descriptor was handed out for a handle.
    pub open spec fn fd_registered(self, file: FileView) -> NodeView {
        NodeView {
            fds: self.fds.registered(FdEntry { inode: file.inode, writable: file.can_write }),
            ..self
        }
    }

    /// The node after a descriptor was taken out of use.
    pub open spec fn fd_unregistered(self, fd: RawFd) -> NodeView {
        NodeView { fds: self.fds.unregistered(fd), ..self }
    }

    /// The place of the file behind a descriptor. A descriptor that is not in use, or that
    /// may not be written where that is needed, is `EBADF`.
    pub open spec fn behind(self, fd: RawFd, need_write: bool) -> Result<int, Error> {
        if self.fds.map.contains_key(fd) && (need_write ==> self.fds.map[fd].writable) {
            Ok(self.fds.map[fd].inode as int)
        } else {
            Err(Error::Os(ebadf_number()))
        }
    }

    /// The node after `bytes` were written at `offset` through a descriptor.
    pub open spec fn fd_written(self, fd: RawFd, bytes: Seq<u8>, offset: int) -> NodeView {
        match self.behind(fd, true) {
            Ok(i) => self.with_data(i, written(self.data(i), offset, bytes)),
            Err(_) => self,
        }
    }

    /// The bytes that a read of `want` bytes at `offset` through a descriptor yields.
    pub open spec fn fd_read(self, fd: RawFd, want: int, offset: int) -> Seq<u8> {
        match self.behind(fd, false) {
            Ok(i) => read_bytes(self.data(i), offset, want),
            Err(_) => Seq::empty(),
        }
    }

    /// The node after `offset + len` bytes were allocated through a descriptor.
    pub open spec fn fd_allocated(self, fd: RawFd, offset: int, len: int) -> NodeView {
        match self.behind(fd, true) {
            Ok(i) => if offset + len > usize::MAX {
                self
            } else {
                self.with_data(i, grown(self.data(i), offset + len))
            },
            Err(_) => self,
        }
    }
}

/// A path that names a file names that file only.
pub proof fn lemma_lookup(node: NodeView, path: Seq<u8>, i: int)
    requires
        node.wf(),
        node.names(path, i),
    ensures
        node.lookup(path) == Some(i),
{
    let found = choose|k: int| node.names(path, k);
    assert(node.names(path, found));
    assert(node.inodes[found].path == node.inodes[found].path);
    assert(node.inodes[i].path == node.inodes[i].path);
}

/// Creating a path keeps the node well-formed.
pub proof fn lemma_created(node: NodeView, path: Seq<u8>)
    requires
        node.wf(),
    ensures
        node.created(path).wf(),
{
    let after = node.created(path);
    match node.lookup(path) {
        Some(i) => {
            assert(node.names(path, i));
            lemma_with_data(node, i, Seq::empty());
        },
        None => {
            let count = node.inodes.len();
            assert forall|i: int, j: int|
                #![trigger after.inodes[i], after.inodes[j]]
                0 <= i < after.inodes.len() && 0 <= j < after.inodes.len() && components(
                    after.inodes[i].path,
                ) == components(after.inodes[j].path) implies i == j by {
                if i < count && j < count {
                    assert(node.inodes[i] == after.inodes[i]);
                    assert(node.inodes[j] == after.inodes[j]);
                } else if i < count {
                    assert(node.names(path, i));
                } else if j < count {
                    assert(node.names(path, j));
                }
            }
        },
    }
}

/// Changing what a file holds keeps the node well-formed.
pub proof fn lemma_with_data(node: NodeView, i: int, data: Seq<u8>)
    requires
        node.wf(),
        0 <= i < node.inodes.len(),
    ensures
        node.with_data(i, data).wf(),
{
    let after = node.with_data(i, data);
    assert forall|j: int, k: int|
        #![trigger after.inodes[j], after.inodes[k]]
        0 <= j < after.inodes.len() && 0 <= k < after.inodes.len() && components(
            after.inodes[j].path,
        ) == components(after.inodes[k].path) implies j == k by {
        assert(after.inodes[j].path == node.inodes[j].path);
        assert(after.inodes[k].path == node.inodes[k].path);
    }
}

/// File system simulator for a node.
pub struct FsNodeHandle {
    inodes: Vec<INode>,
    fds: FdTable,
}

impl View for FsNodeHandle {
    type V = NodeView;

    closed spec fn view(&self) -> NodeView {
        NodeView { inodes: self.inodes@.map_values(|inode: INode| inode@), fds: self.fds@ }
    }
}

impl FsNodeHandle {
    /// Whether no path names two files and every descriptor in use stands for a file.
    pub open spec fn wf(&self) -> bool {
        self@.wf()
    }

    /// Creates a node without files.
    pub fn new() -> (node: FsNodeHandle)
        ensures
            node.wf(),
            node@ == NodeView::init(),
    {
        let node = FsNodeHandle { inodes: Vec::new(), fds: FdTable::new() };
        assert(node@.inodes =~= Seq::<INodeView>::empty());
        node
    }

    /// Finds the place of the file that `path` names.
    fn find(&self, path: &[u8]) -> (place: Option<usize>)
        requires
            self.wf(),
        ensures
            match place {
                Some(i) => i < self@.inodes.len() && self@.lookup(path@) == Some(i as int),
                None => self@.lookup(path@) is None,
            },
    {
        let mut i: usize = 0;
        while i < self.inodes.len()
            invariant
                self.wf(),
                i <= self.inodes@.len(),
                forall|k: int| 0 <= k < i ==> !self@.names(path@, k),
            decreases self.inodes@.len() - i,
        {
            assert(self@.inodes[i as int] == self.inodes@[i as int]@);
            if same_path(self.inodes[i].path(), path) {
                proof {
                    lemma_lookup(self@, path@, i as int);
                }
                return Some(i);
            }
            i = i + 1;
        }
        None
    }

    /// Opens a file read-only. A path that names no file is not found.
    pub fn open(&self, path: &[u8]) -> (result: Result<File, Error>)
        requires
            self.wf(),
        ensures
            match self@.lookup(path@) {
                Some(i) => result matches Ok(file) && file@ == (FileView {
                    inode: i as usize,
                    can_write: false,
                    fd: None,
                }) && file@.inode == i && self@.holds(file@),
                None => result matches Err(error) && error == Error::NotFound,
            },
    {
        match self.find(path) {
            Some(inode) => Ok(File { inode, can_write: false, fd: None }),
            None => Err(Error::NotFound),
        }
    }

    /// Opens a file for writing. The file is created if it does not exist and emptied if it
    /// does.
    pub fn create_sync(&mut self, path: &[u8]) -> (result: Result<File, Error>)
        requires
            old(self).wf(),
        ensures
            final(self).wf(),
            final(self)@ == old(self)@.created(path@),
            result matches Ok(file) && file@ == (FileView {
                inode: old(self)@.created_at(path@) as usize,
                can_write: true,
                fd: None,
            }) && file@.inode == old(self)@.created_at(path@) && final(self)@.holds(file@),
    {
        let ghost before = self@;
        proof {
            lemma_created(before, path@);
        }
        match self.find(path) {
            Some(inode) => {
                assert(before.inodes[inode as int] == self.inodes@[inode as int]@);
                self.inodes[inode].truncate();
                assert(self@.inodes =~= before.created(path@).inodes);
                Ok(File { inode, can_write: true, fd: None })
            },
            None => {
                let inode: usize = self.inodes.len();
                self.inodes.push(INode::new(path));
                assert(self@.inodes =~= before.created(path@).inodes);
                Ok(File { inode, can_write: true, fd: None })
            },
        }
    }

    /// Opens a file for writing, as [`create_sync`](Self::create_sync) does.
    pub fn create(&mut self, path: &[u8]) -> (result: Result<File, Error>)
        requires
            old(self).wf(),
        ensures
            final(self).wf(),
            final(self)@ == old(self)@.created(path@),
            result matches Ok(file) && file@ == (FileView {
                inode: old(self)@.created_at(path@) as usize,
                can_write: true,
                fd: None,
            }) && file@.inode == old(self)@.created_at(path@) && final(self)@.holds(file@),
    {
        self.create_sync(path)
    }

    /// Queries metadata about the file that `path` names.
    pub fn metadata(&self, path: &[u8]) -> (result: Result<Metadata, Error>)
        requires
            self.wf(),
        ensures
            match self@.lookup(path@) {
                Some(i) => result matches Ok(metadata) && metadata@ == self@.data(i).len(),
                None => result matches Err(error) && error == Error::NotFound,
            },
    {
        match self.find(path) {
            Some(inode) => {
                assert(self@.inodes[inode as int] == self.inodes@[inode as int]@);
                Ok(Metadata { len: self.inodes[inode].size() })
            },
            None => Err(Error::NotFound),
        }
    }

    /// Returns whether there is a descriptor left to hand out.
    pub fn has_free_fd(&self) -> (free: bool)
        ensures
            free == (self@.fds.next < RawFd::MAX),
    {
        self.fds.has_free()
    }

    /// Returns whether a file may be written through `fd`.
    pub fn is_writable(&self, fd: RawFd) -> (writable: bool)
        ensures
            writable == (self@.behind(fd, true) is Ok),
    {
        match self.fds.get(fd) {
            None => false,
            Some(entry) => entry.writable,
        }
    }

    /// Looks up the file registered for `fd`.
    pub fn inode_for_fd(&self, fd: RawFd, need_write: bool) -> (result: Result<usize, Error>)
        requires
            self.wf(),
        ensures
            match self@.behind(fd, need_write) {
                Ok(i) => result matches Ok(inode) && inode == i && i < self@.inodes.len(),
                Err(e) => result matches Err(error) && error == e,
            },
    {
        match self.fds.get(fd) {
            None => Err(Error::Os(ebadf())),
            Some(entry) => {
                if need_write && !entry.writable {
                    return Err(Error::Os(ebadf()));
                }
                Ok(entry.inode)
            },
        }
    }

    /// Writes to the file at place `inode`.
    fn write_inode(&mut self, inode: usize, buf: &[u8], offset: u64)
        requires
            old(self).wf(),
            inode < old(self)@.inodes.len(),
            offset + buf@.len() <= isize::MAX,
        ensures
            final(self).wf(),
            final(self)@ == old(self)@.with_data(
                inode as int,
                written(old(self)@.data(inode as int), offset as int, buf@),
            ),
    {
        let ghost before = self@;
        let ghost data = written(before.data(inode as int), offset as int, buf@);
        proof {
            assert(before.inodes[inode as int] == self.inodes@[inode as int]@);
            lemma_with_data(before, inode as int, data);
        }
        self.inodes[inode].write_at(buf, offset);
        assert(self@.inodes =~= before.with_data(inode as int, data).inodes);
    }
}

/// A reference to an open file of a node.
pub struct File {
    inode: usize,
    can_write: bool,
    /// The descriptor, once one was asked for.
    fd: Option<RawFd>,
}

impl View for File {
    type V = FileView;

    closed spec fn view(&self) -> FileView {
        FileView { inode: self.inode, can_write: self.can_write, fd: self.fd }
    }
}

impl File {
    /// Attempts to open a file in read-only mode.
    pub fn open(node: &FsNodeHandle, path: &[u8]) -> (result: Result<File, Error>)
        requires
            node.wf(),
        ensures
            match node@.lookup(path@) {
                Some(i) => result matches Ok(file) && file@ == (FileView {
                    inode: i as usize,
                    can_write: false,
                    fd: None,
                }) && file@.inode == i && node@.holds(file@),
                None => result matches Err(error) && error == Error::NotFound,
            },
    {
        node.open(path)
    }

    /// Opens a file for writing.
    ///
    /// This function will create a file if it does not exist, and will truncate it if it does.
    pub fn create(node: &mut FsNodeHandle, path: &[u8]) -> (result: Result<File, Error>)
        requires
            old(node).wf(),
        ensures
            final(node).wf(),
            final(node)@ == old(node)@.created(path@),
            result matches Ok(file) && file@ == (FileView {
                inode: old(node)@.created_at(path@) as usize,
                can_write: true,
                fd: None,
            }) && file@.inode == old(node)@.created_at(path@) && final(node)@.holds(file@),
    {
        node.create(path)
    }

    /// Twin of [`create`](Self::create).
    pub fn create_sync(node: &mut FsNodeHandle, path: &[u8]) -> (result: Result<File, Error>)
        requires
            old(node).wf(),
        ensures
            final(node).wf(),
            final(node)@ == old(node)@.created(path@),
            result matches Ok(file) && file@ == (FileView {
                inode: old(node)@.created_at(path@) as usize,
                can_write: true,
                fd: None,
            }) && file@.inode == old(node)@.created_at(path@) && final(node)@.holds(file@),
    {
        node.create_sync(path)
    }

    /// Returns the path that the file was created under.
    pub fn path<'a>(&self, node: &'a FsNodeHandle) -> (path: &'a [u8])
        requires
            node@.holds(self@),
        ensures
            path@ == node@.inodes[self@.inode as int].path,
    {
        assert(node@.inodes[self.inode as int] == node.inodes@[self.inode as int]@);
        node.inodes[self.inode].path()
    }

    /// Reads a number of bytes starting from a given offset.
    ///
    /// Reads that start at or beyond the end of the file return `Ok(0)`.
    pub fn read_at(&self, node: &FsNodeHandle, buf: &mut [u8], offset: u64) -> (result: Result<
        usize,
        Error,
    >)
        requires
            node@.holds(self@),
        ensures
            result matches Ok(count) && count == read_count(
                node@.data(self@.inode as int),
                offset as int,
                old(buf)@.len() as int,
            ),
            final(buf)@ == filled(
                old(buf)@,
                read_bytes(node@.data(self@.inode as int), offset as int, old(buf)@.len() as int),
            ),
    {
        assert(node@.inodes[self.inode as int] == node.inodes@[self.inode as int]@);
        Ok(node.inodes[self.inode].read_at(buf, offset))
    }

    /// Attempts to write an entire buffer starting from a given offset.
    ///
    /// A handle that was opened read-only is denied, and nothing is written.
    pub fn write_all_at(&self, node: &mut FsNodeHandle, buf: &[u8], offset: u64) -> (result: Result<
        (),
        Error,
    >)
        requires
            old(node).wf(),
            old(node)@.holds(self@),
            self@.can_write ==> offset + buf@.len() <= isize::MAX,
        ensures
            final(node).wf(),
            final(node)@.holds(self@),
            result == (if self@.can_write {
                Ok::<(), Error>(())
            } else {
                Err(Error::PermissionDenied)
            }),
            final(node)@ == (if self@.can_write {
                old(node)@.with_data(
                    self@.inode as int,
                    written(old(node)@.data(self@.inode as int), offset as int, buf@),
                )
            } else {
                old(node)@
            }),
    {
        if !self.can_write {
            return Err(Error::PermissionDenied);
        }
        node.write_inode(self.inode, buf, offset);
        Ok(())
    }

    /// Truncates or extends the underlying file, updating the size of this file to become
    /// `size`.
    pub fn set_len(&self, node: &mut FsNodeHandle, size: u64) -> (result: Result<(), Error>)
        requires
            old(node).wf(),
            old(node)@.holds(self@),
            size <= isize::MAX,
        ensures
            final(node).wf(),
            final(node)@.holds(self@),
            result is Ok,
            final(node)@ == old(node)@.with_data(
                self@.inode as int,
                resized(old(node)@.data(self@.inode as int), size as int),
            ),
    {
        self.set_len_sync(node, size)
    }

    /// Twin of [`set_len`](Self::set_len).
    pub fn set_len_sync(&self, node: &mut FsNodeHandle, size: u64) -> (result: Result<(), Error>)
        requires
            old(node).wf(),
            old(node)@.holds(self@),
            size <= isize::MAX,
        ensures
            final(node).wf(),
            final(node)@.holds(self@),
            result is Ok,
            final(node)@ == old(node)@.with_data(
                self@.inode as int,
                resized(old(node)@.data(self@.inode as int), size as int),
            ),
    {
        let ghost before = node@;
        let ghost data = resized(before.data(self.inode as int), size as int);
        proof {
            assert(before.inodes[self.inode as int] == node.inodes@[self.inode as int]@);
            lemma_with_data(before, self.inode as int, data);
        }
        node.inodes[self.inode].set_len(size);
        assert(node@.inodes =~= before.with_data(self.inode as int, data).inodes);
        Ok(())
    }

    /// Attempts to sync all OS-internal metadata to disk. Nothing is ever buffered, so there
    /// is nothing to do.
    pub fn sync_all(&self, node: &mut FsNodeHandle) -> (result: Result<(), Error>)
        ensures
            result is Ok,
            final(node)@ == old(node)@,
    {
        Ok(())
    }

    /// Queries metadata about the underlying file.
    pub fn metadata(&self, node: &FsNodeHandle) -> (result: Result<Metadata, Error>)
        requires
            node@.holds(self@),
        ensures
            result matches Ok(metadata) && metadata@ == node@.data(self@.inode as int).len(),
    {
        assert(node@.inodes[self.inode as int] == node.inodes@[self.inode as int]@);
        Ok(Metadata { len: node.inodes[self.inode].size() })
    }

    /// Returns the descriptor of this file, if one was asked for before.
    pub fn known_fd(&self) -> (fd: Option<RawFd>)
        ensures
            fd == self@.fd,
    {
        self.fd
    }

    /// Returns a simulated raw file descriptor.
    ///
    /// The descriptor is registered in the node's descriptor table on first use and stays
    /// valid until this `File` is closed.
    pub fn as_raw_fd(&mut self, node: &mut FsNodeHandle) -> (fd: RawFd)
        requires
            old(node).wf(),
            old(node)@.holds(old(self)@),
            old(self)@.fd is None ==> old(node)@.fds.next < RawFd::MAX,
        ensures
            final(node).wf(),
            final(node)@.holds(final(self)@),
            final(self)@ == (FileView { fd: Some(fd), ..old(self)@ }),
            match old(self)@.fd {
                Some(known) => fd == known && final(node)@ == old(node)@,
                None => fd == old(node)@.fds.next && final(node)@ == old(node)@.fd_registered(
                    old(self)@,
                ),
            },
    {
        if let Some(fd) = self.fd {
            return fd;
        }
        let fd = node.fds.register(self.inode, self.can_write);
        self.fd = Some(fd);
        fd
    }

    /// Closes the file, taking its descriptor out of use if it has one.
    pub fn close(self, node: &mut FsNodeHandle)
        requires
            old(node).wf(),
            old(node)@.holds(self@),
        ensures
            final(node).wf(),
            final(node)@ == (match self@.fd {
                Some(fd) => old(node)@.fd_unregistered(fd),
                None => old(node)@,
            }),
    {
        if let Some(fd) = self.fd {
            node.fds.unregister(fd);
        }
    }
}

/// Reads the entire contents of a file into a bytes vector.
pub fn read(node: &FsNodeHandle, path: &[u8]) -> (result: Result<Vec<u8>, Error>)
    requires
        node.wf(),
    ensures
        match node@.lookup(path@) {
            Some(i) => result matches Ok(data) && data@ == node@.data(i),
            None => result matches Err(error) && error == Error::NotFound,
        },
{
    match node.open(path) {
        Ok(file) => {
            assert(node@.inodes[file.inode as int] == node.inodes@[file.inode as int]@);
            Ok(copy_bytes(node.inodes[file.inode].data()))
        },
        Err(error) => Err(error),
    }
}

/// Given a path, queries the file system to get information about a file.
pub fn metadata(node: &FsNodeHandle, path: &[u8]) -> (result: Result<Metadata, Error>)
    requires
        node.wf(),
    ensures
        match node@.lookup(path@) {
            Some(i) => result matches Ok(metadata) && metadata@ == node@.data(i).len(),
            None => result matches Err(error) && error == Error::NotFound,
        },
{
    node.metadata(path)
}

/// Reads from the file behind a simulated raw descriptor at `offset`.
pub fn read_at_fd(node: &FsNodeHandle, fd: RawFd, buf: &mut [u8], offset: u64) -> (result: Result<
    usize,
    Error,
>)
    requires
        node.wf(),
    ensures
        match node@.behind(fd, false) {
            Ok(_) => result matches Ok(count) && count == node@.fd_read(
                fd,
                old(buf)@.len() as int,
                offset as int,
            ).len(),
            Err(e) => result matches Err(error) && error == e,
        },
        final(buf)@ == filled(
            old(buf)@,
            node@.fd_read(fd, old(buf)@.len() as int, offset as int),
        ),
{
    match node.inode_for_fd(fd, false) {
        Ok(inode) => {
            assert(node@.inodes[inode as int] == node.inodes@[inode as int]@);
            Ok(node.inodes[inode].read_at(buf, offset))
        },
        Err(error) => {
            assert(buf@ =~= filled(buf@, Seq::<u8>::empty()));
            Err(error)
        },
    }
}

/// Writes to the file behind a simulated raw descriptor at `offset`, returning the number
/// of bytes written.
///
/// The descriptor must refer to a writable file.
pub fn write_at_fd(node: &mut FsNodeHandle, fd: RawFd, buf: &[u8], offset: u64) -> (result: Result<
    usize,
    Error,
>)
    requires
        old(node).wf(),
        old(node)@.behind(fd, true) is Ok ==> offset + buf@.len() <= isize::MAX,
    ensures
        final(node).wf(),
        match old(node)@.behind(fd, true) {
            Ok(_) => result matches Ok(count) && count == buf@.len(),
            Err(e) => result matches Err(error) && error == e,
        },
        final(node)@ == old(node)@.fd_written(fd, buf@, offset as int),
{
    match node.inode_for_fd(fd, true) {
        Ok(inode) => {
            node.write_inode(inode, buf, offset);
            Ok(buf.len())
        },
        Err(error) => Err(error),
    }
}

/// Grows the file behind a simulated raw descriptor so that `offset + len` bytes are
/// allocated.
pub fn fallocate_fd(node: &mut FsNodeHandle, fd: RawFd, offset: u64, len: u64) -> (result: Result<
    (),
    Error,
>)
    requires
        old(node).wf(),
        old(node)@.behind(fd, true) is Ok ==> (offset + len <= isize::MAX || offset + len
            > usize::MAX),
    ensures
        final(node).wf(),
        match old(node)@.behind(fd, true) {
            Ok(_) => result == (if offset + len > usize::MAX {
                Err::<(), Error>(Error::Os(crate::error::efbig_number()))
            } else {
                Ok(())
            }),
            Err(e) => result matches Err(error) && error == e,
        },
        final(node)@ == old(node)@.fd_allocated(fd, offset as int, len as int),
{
    let ghost before = node@;
    match node.inode_for_fd(fd, true) {
        Ok(inode) => {
            let ghost data = if offset + len > usize::MAX {
                before.data(inode as int)
            } else {
                grown(before.data(inode as int), offset + len)
            };
            proof {
                assert(before.inodes[inode as int] == node.inodes@[inode as int]@);
                lemma_with_data(before, inode as int, data);
            }
            let result = node.inodes[inode].fallocate(offset, len);
            proof {
                assert(node@.inodes =~= before.with_data(inode as int, data).inodes);
                assert(before.with_data(inode as int, before.data(inode as int)) =~= before);
            }
            result
        },
        Err(error) => Err(error),
    }
}

/// Validates that `fd` refers to an open file. Data is never buffered, so there is nothing
/// else to do.
pub fn fsync_fd(node: &FsNodeHandle, fd: RawFd) -> (result: Result<(), Error>)
    requires
        node.wf(),
    ensures
        match node@.behind(fd, false) {
            Ok(_) => result is Ok,
            Err(e) => result matches Err(error) && error == e,
        },
{
    match node.inode_for_fd(fd, false) {
        Ok(_) => Ok(()),
        Err(error) => Err(error),
    }
}

/// Metadata information about a file.
#[derive(Debug, Clone, Copy)]
pub struct Metadata {
    len: u64,
}

impl View for Metadata {
    type V = nat;

    closed spec fn view(&self) -> nat {
        self.len as nat
    }
}

impl Metadata {
    /// Returns the size of the file, in bytes, this metadata is for.
    pub fn len(&self) -> (len: u64)
        ensures
            len == self@,
    {
        self.len
    }
}

/// File system simulator: the file systems of all nodes.
pub struct FsSim {
    handles: HashMap<NodeId, FsNodeHandle>,
}

impl View for FsSim {
    type V = Map<NodeId, FsNodeHandle>;

    closed spec fn view(&self) -> Map<NodeId, FsNodeHandle> {
        self.handles@
    }
}

impl Default for FsSim {
    fn default() -> (sim: FsSim)
        ensures
            sim@ == Map::<NodeId, FsNodeHandle>::empty(),
    {
        FsSim { handles: HashMap::new() }
    }
}

impl FsSim {
    /// Whether every node's file system is well-formed.
    pub open spec fn wf(&self) -> bool {
        forall|id: NodeId| #[trigger] self@.contains_key(id) ==> self@[id].wf()
    }

    /// Creates a simulator without nodes.
    pub fn new() -> (sim: FsSim)
        ensures
            sim.wf(),
            sim@ == Map::<NodeId, FsNodeHandle>::empty(),
    {
        FsSim::default()
    }

    /// Adds a node without files, in place of any earlier node of that name.
    pub fn create_node(&mut self, id: NodeId)
        requires
            old(self).wf(),
        ensures
            final(self).wf(),
            final(self)@.contains_key(id),
            final(self)@[id]@ == NodeView::init(),
            final(self)@ == old(self)@.insert(id, final(self)@[id]),
    {
        let node = FsNodeHandle::new();
        self.handles.insert(id, node);
        assert(self@ == old(self)@.insert(id, node));
        assert forall|k: NodeId| #[trigger] self@.contains_key(k) implies self@[k].wf() by {
            assert(k == id || old(self)@.contains_key(k));
        }
    }

    /// Returns whether there is a node of that name.
    pub fn contains_node(&self, id: NodeId) -> (there: bool)
        ensures
            there == self@.contains_key(id),
    {
        self.handles.contains_key(&id)
    }

    /// Resets a node, as a power failure does.
    pub fn reset_node(&mut self, id: NodeId)
        ensures
            final(self)@ == old(self)@,
    {
        self.power_fail(id);
    }

    /// Returns a handle of the specified node.
    pub fn get_node(&mut self, id: NodeId) -> (node: &mut FsNodeHandle)
        requires
            old(self)@.contains_key(id),
        ensures
            *node == old(self)@[id],
            final(self)@ == old(self)@.insert(id, *final(node)),
    {
        self.handles.entry(id).or_insert(FsNodeHandle::new())
    }

    /// Simulates a power failure. All data that does not reach the disk is lost; data is
    /// never buffered, so nothing is.
    pub fn power_fail(&mut self, _id: NodeId)
        ensures
            final(self)@ == old(self)@,
    {
    }

    /// Gets the size of a given file.
    pub fn get_file_size(&self, node: NodeId, path: &[u8]) -> (result: Result<u64, Error>)
        requires
            self.wf(),
            self@.contains_key(node),
        ensures
            match self@[node]@.lookup(path@) {
                Some(i) => result matches Ok(size) && size == self@[node]@.data(i).len(),
                None => result matches Err(error) && error == Error::NotFound,
            },
    {
        let handle = self.handles.get(&node).unwrap();
        match handle.metadata(path) {
            Ok(metadata) => Ok(metadata.len()),
            Err(error) => Err(error),
        }
    }
}

} // verus!
