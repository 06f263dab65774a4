//! What each operation does, told in bytes, lengths and numbers.
//!
//! These laws speak of what goes in and what comes out: which bytes a file or a buffer holds,
//! how long it is, which descriptor stands for which file, which number is reported.
use vstd::arithmetic::power2::{lemma2_to64, lemma_pow2_unfold, pow2};
use vstd::prelude::*;

use crate::cqueue::{self, arranged};
use crate::error::{
    ebadf_number, ebusy_number, efault_number, efbig_number, eio_number, Error,
};
use crate::fs::{lemma_lookup, FdEntry, FileView, NodeView, RawFd};
use crate::inode::{filled, grown, read_bytes, read_count, resized, written};
use crate::mem::{in_address_space, loaded, mapped, stored};
use crate::op::{Op, Target, UseFixed};
use crate::opcode::plain_entry;
use crate::path::{components, lemma_pieces_nonempty, pieces};
use crate::power::{is_power_of_two, lemma_rounded_up, rounded_up};
use crate::ring::{fresh, reaped, registration, stage, submitted, world_of, IoUring, Stage};
use crate::rng::{ascending, is_order, next_order, next_seed, shuffled};
use crate::run::{
    after, aim, aimed, all_runnable, completion, completions, effect, entry_effect,
    entry_outcome, intended, meant, moved, op_runnable, outcome, resolved, runnable, World,
};
use crate::squeue::{fixed_file, Entry, Flags};
use crate::types::{Fd, Fixed};

verus! {

// Contents of a file.

/// Writing `bytes` at `offset` leaves a file as long as it was, or as the write reaches,
/// whichever is more. The range holds the bytes written, every old byte outside it stays, and
/// all else is zero.
pub proof fn law_contents_after_write(data: Seq<u8>, offset: int, bytes: Seq<u8>)
    requires
        0 <= offset,
    ensures
        ({
            let new = written(data, offset, bytes);
            let end = offset + bytes.len();
            &&& end >= data.len() ==> new.len() == end
            &&& end < data.len() ==> new.len() == data.len()
            &&& forall|k: int| 0 <= k < bytes.len() ==> new[offset + k] == #[trigger] bytes[k]
            &&& forall|k: int|
                0 <= k < data.len() && !(offset <= k < end) ==> #[trigger] new[k] == data[k]
            &&& forall|k: int|
                data.len() <= k < new.len() && !(offset <= k < end) ==> #[trigger] new[k] == 0
        }),
{
}

/// A read yields as many bytes as there are from `offset` on, and no more than wanted; none
/// where it starts at or beyond the end. They are the file's bytes from `offset` on.
pub proof fn law_bytes_read(data: Seq<u8>, offset: int, want: int)
    requires
        0 <= offset,
        0 <= want,
    ensures
        ({
            let got = read_bytes(data, offset, want);
            &&& got.len() == read_count(data, offset, want)
            &&& offset >= data.len() ==> got.len() == 0
            &&& offset < data.len() && offset + want > data.len() ==> got.len() == data.len()
                - offset
            &&& offset < data.len() && offset + want <= data.len() ==> got.len() == want
            &&& forall|k: int| 0 <= k < got.len() ==> #[trigger] got[k] == data[offset + k]
        }),
{
}

/// Filling a buffer puts the bytes at its front and leaves the rest of it as it was.
pub proof fn law_buffer_filled(buf: Seq<u8>, bytes: Seq<u8>)
    requires
        bytes.len() <= buf.len(),
    ensures
        filled(buf, bytes).len() == buf.len(),
        forall|k: int| 0 <= k < bytes.len() ==> #[trigger] filled(buf, bytes)[k] == bytes[k],
        forall|k: int| bytes.len() <= k < buf.len() ==> #[trigger] filled(buf, bytes)[k] == buf[k],
{
}

/// Setting the size of a file gives it exactly that size, zero included. The bytes that still
/// fit stay, and new space is zero.
pub proof fn law_contents_after_resize(data: Seq<u8>, size: int)
    requires
        0 <= size,
    ensures
        resized(data, size).len() == size,
        forall|k: int|
            0 <= k < size && k < data.len() ==> #[trigger] resized(data, size)[k] == data[k],
        forall|k: int| data.len() <= k < size ==> #[trigger] resized(data, size)[k] == 0,
{
}

/// Growing a file to `needed` bytes makes it that long where it was shorter and leaves it
/// alone otherwise. Every old byte stays, and new space is zero.
pub proof fn law_contents_after_growth(data: Seq<u8>, needed: int)
    requires
        0 <= needed,
    ensures
        needed <= data.len() ==> grown(data, needed) == data,
        needed > data.len() ==> grown(data, needed).len() == needed,
        forall|k: int| 0 <= k < data.len() ==> #[trigger] grown(data, needed)[k] == data[k],
        forall|k: int| data.len() <= k < needed ==> #[trigger] grown(data, needed)[k] == 0,
{
    if needed <= data.len() {
        assert(grown(data, needed) =~= data);
    }
}

// Paths.

/// Pieces put together again, with a separator between each two neighbours.
pub open spec fn joined(parts: Seq<Seq<u8>>) -> Seq<u8>
    decreases parts.len(),
{
    if parts.len() == 0 {
        Seq::empty()
    } else if parts.len() == 1 {
        parts[0]
    } else {
        joined(parts.drop_last()) + seq![0x2fu8] + parts.last()
    }
}

/// The pieces of a path, put together again, are the path, byte for byte, and none of them
/// holds a separator.
pub proof fn law_pieces_make_up_the_path(path: Seq<u8>)
    ensures
        pieces(path).len() > 0,
        joined(pieces(path)) == path,
        forall|i: int, k: int|
            0 <= i < pieces(path).len() && 0 <= k < pieces(path)[i].len()
                ==> #[trigger] pieces(path)[i][k] != 0x2f,
    decreases path.len(),
{
    if path.len() == 0 {
        assert(joined(pieces(path)) =~= path);
    } else {
        let front = path.drop_last();
        let before = pieces(front);
        let now = pieces(path);
        law_pieces_make_up_the_path(front);
        if path.last() == 0x2f {
            assert(now.drop_last() =~= before);
            assert(joined(now) =~= front.push(path.last()));
        } else {
            assert(now.drop_last() =~= before.drop_last());
            assert(now.last() == before.last().push(path.last()));
            assert(joined(now) =~= joined(before).push(path.last()));
            assert forall|i: int, k: int|
                0 <= i < now.len() && 0 <= k < now[i].len() implies #[trigger] now[i][k]
                != 0x2f by {
                if i < now.len() - 1 {
                    assert(now[i] == before[i]);
                    assert(before[i][k] != 0x2f);
                } else if k < before.last().len() {
                    assert(before[i][k] != 0x2f);
                }
            }
        }
        assert(front.push(path.last()) =~= path);
    }
}

/// Whether a byte string holds no separator.
pub open spec fn unseparated(part: Seq<u8>) -> bool {
    forall|k: int| 0 <= k < part.len() ==> #[trigger] part[k] != 0x2f
}

/// A path is taken apart at its last separator. Behind one, an empty part and `.` add no
/// component, and any other part adds itself. A path that starts with its only separator
/// starts with the root. Without a separator, the empty path has no component, and any other,
/// `.` too, is its own one component. This settles the components of every path.
pub proof fn law_components(path: Seq<u8>, part: Seq<u8>)
    requires
        unseparated(part),
    ensures
        ({
            let longer = path + seq![0x2fu8] + part;
            let silent = part.len() == 0 || part == seq![0x2eu8];
            &&& path.len() > 0 && silent ==> components(longer) == components(path)
            &&& path.len() > 0 && !silent ==> components(longer) == components(path).push(part)
            &&& path.len() == 0 && silent ==> components(longer) == seq![seq![0x2fu8]]
            &&& path.len() == 0 && !silent ==> components(longer) == seq![seq![0x2fu8], part]
            &&& part.len() == 0 ==> components(part) == Seq::<Seq<u8>>::empty()
            &&& part.len() > 0 ==> components(part) == seq![part]
        }),
{
    let longer = path + seq![0x2fu8] + part;
    let p = |piece: Seq<u8>| crate::path::is_name(piece);
    lemma_pieces_nonempty(path);
    lemma_pieces_of_longer(path, part);
    lemma_pieces_of_part(part);
    let all = pieces(longer);
    assert(all.drop_last() =~= pieces(path));
    assert(all.last() == part);
    assert(all.filter(p) =~= if p(part) {
        pieces(path).filter(p).push(part)
    } else {
        pieces(path).filter(p)
    }) by {
        reveal(Seq::filter);
    }
    assert(seq![part].filter(p) =~= if p(part) {
        seq![part]
    } else {
        Seq::<Seq<u8>>::empty()
    }) by {
        reveal_with_fuel(Seq::filter, 2);
        assert(seq![part].drop_last() =~= Seq::<Seq<u8>>::empty());
    }
    if path.len() > 0 {
        assert(longer[0] == path[0]);
        assert(all[0] == pieces(path)[0]);
        assert(components(longer) =~= if p(part) {
            components(path).push(part)
        } else {
            components(path)
        });
    } else {
        assert(longer[0] == 0x2f);
        assert(pieces(path) =~= seq![Seq::<u8>::empty()]);
        assert(pieces(path).filter(p) =~= Seq::<Seq<u8>>::empty()) by {
            reveal_with_fuel(Seq::filter, 2);
            assert(pieces(path).drop_last() =~= Seq::<Seq<u8>>::empty());
        }
        assert(components(longer) =~= if p(part) {
            seq![seq![0x2fu8], part]
        } else {
            seq![seq![0x2fu8]]
        });
    }
    if part.len() > 0 {
        assert(part[0] != 0x2f);
        assert(components(part) =~= seq![part]);
    } else {
        assert(part != seq![0x2eu8]);
        assert(components(part) =~= Seq::<Seq<u8>>::empty());
    }
}

/// Two names without separators name one file only if they are the same, byte for byte.
pub proof fn law_names_are_told_apart(a: Seq<u8>, b: Seq<u8>)
    requires
        unseparated(a),
        unseparated(b),
    ensures
        components(a) == components(b) <==> a == b,
{
    law_components(Seq::empty(), a);
    law_components(Seq::empty(), b);
    if components(a) == components(b) && a.len() > 0 && b.len() > 0 {
        assert(seq![a][0] == seq![b][0]);
    }
    if components(a) == components(b) && (a.len() == 0 || b.len() == 0) {
        assert(seq![a].len() == 1 && seq![b].len() == 1);
        assert(a =~= b);
    }
}

/// Files in one directory are told apart by their names, byte for byte.
pub proof fn law_names_in_a_directory_are_told_apart(
    directory: Seq<u8>,
    a: Seq<u8>,
    b: Seq<u8>,
)
    requires
        unseparated(a),
        unseparated(b),
        a.len() > 0 && a != seq![0x2eu8],
        b.len() > 0 && b != seq![0x2eu8],
    ensures
        components(directory + seq![0x2fu8] + a) == components(directory + seq![0x2fu8] + b)
            <==> a == b,
{
    law_components(directory, a);
    law_components(directory, b);
    let x = components(directory + seq![0x2fu8] + a);
    let y = components(directory + seq![0x2fu8] + b);
    assert(x.last() == a);
    assert(y.last() == b);
}

/// A part without separators, put behind a separator, is one more piece.
proof fn lemma_pieces_of_longer(path: Seq<u8>, part: Seq<u8>)
    requires
        unseparated(part),
    ensures
        pieces(path + seq![0x2fu8] + part) == pieces(path).push(part),
    decreases part.len(),
{
    let longer = path + seq![0x2fu8] + part;
    if part.len() == 0 {
        assert(longer.drop_last() =~= path);
        assert(part =~= Seq::<u8>::empty());
    } else {
        let front = part.drop_last();
        assert(longer.drop_last() =~= path + seq![0x2fu8] + front);
        lemma_pieces_of_longer(path, front);
        assert(part.last() != 0x2f);
        assert(front.push(part.last()) =~= part);
        assert(pieces(path).push(front).drop_last() =~= pieces(path));
    }
}

/// A part without separators is one piece.
proof fn lemma_pieces_of_part(part: Seq<u8>)
    requires
        unseparated(part),
    ensures
        pieces(part) == seq![part],
    decreases part.len(),
{
    if part.len() == 0 {
        assert(part =~= Seq::<u8>::empty());
    } else {
        let front = part.drop_last();
        lemma_pieces_of_part(front);
        assert(part.last() != 0x2f);
        assert(front.push(part.last()) =~= part);
        assert(pieces(part) =~= seq![part]);
    }
}

// Files of a node.

/// What makes a node well-formed, and what it takes to hold a handle.
pub proof fn law_sound_node(node: NodeView, file: FileView)
    ensures
        node.wf() <==> {
            &&& forall|i: int, j: int|
                0 <= i < j < node.inodes.len() ==> components((#[trigger] node.inodes[i]).path)
                    != components((#[trigger] node.inodes[j]).path)
            &&& node.fds.next >= 3
            &&& forall|fd: RawFd| #[trigger]
                node.fds.map.contains_key(fd) ==> 3 <= fd < node.fds.next
                    && node.fds.map[fd].inode < node.inodes.len()
        },
        node.holds(file) <==> {
            &&& file.inode < node.inodes.len()
            &&& file.fd is None || {
                &&& node.fds.map.contains_key(file.fd->Some_0)
                &&& node.fds.map[file.fd->Some_0].inode == file.inode
                &&& node.fds.map[file.fd->Some_0].writable == file.can_write
            }
        },
{
    if forall|i: int, j: int|
        0 <= i < j < node.inodes.len() ==> components((#[trigger] node.inodes[i]).path)
            != components((#[trigger] node.inodes[j]).path) {
        assert forall|i: int, j: int|
            #![trigger node.inodes[i], node.inodes[j]]
            0 <= i < node.inodes.len() && 0 <= j < node.inodes.len() && components(
                node.inodes[i].path,
            ) == components(node.inodes[j].path) implies i == j by {}
    }
}

/// A node starts without files and without descriptors in use.
pub proof fn law_new_node()
    ensures
        NodeView::init().inodes.len() == 0,
        NodeView::init().fds.next == 3,
        forall|fd: RawFd| !(#[trigger] NodeView::init().fds.map.contains_key(fd)),
{
}

/// A path names the one file that was made under a path of the same components, and nothing
/// where there is none.
pub proof fn law_path_names_its_file(node: NodeView, path: Seq<u8>, i: int)
    requires
        node.wf(),
    ensures
        node.lookup(path) == Some(i) <==> 0 <= i < node.inodes.len() && components(
            node.inodes[i].path,
        ) == components(path),
        node.lookup(path) is None <==> forall|k: int|
            0 <= k < node.inodes.len() ==> components((#[trigger] node.inodes[k]).path)
                != components(path),
{
    if node.names(path, i) {
        lemma_lookup(node, path, i);
    }
    if node.lookup(path) is Some {
        assert(node.names(path, node.lookup(path).unwrap()));
    } else {
        assert forall|k: int| 0 <= k < node.inodes.len() implies components(
            (#[trigger] node.inodes[k]).path,
        ) != components(path) by {
            assert(!node.names(path, k));
        }
    }
}

/// A file whose contents are replaced holds the new contents under its old path. Every other
/// file and every descriptor stays.
pub proof fn law_contents_replaced(node: NodeView, i: int, data: Seq<u8>)
    requires
        0 <= i < node.inodes.len(),
    ensures
        node.data(i) == node.inodes[i].data,
        node.with_data(i, data).inodes.len() == node.inodes.len(),
        node.with_data(i, data).inodes[i].data == data,
        node.with_data(i, data).inodes[i].path == node.inodes[i].path,
        forall|k: int|
            0 <= k < node.inodes.len() && k != i ==> #[trigger] node.with_data(i, data).inodes[k]
                == node.inodes[k],
        node.with_data(i, data).fds == node.fds,
{
}

/// Creating a path that names a file empties that file. Creating one that names none adds an
/// empty file under that path, behind all others. Either way every other file stays as it
/// was, contents included, and so does every descriptor.
pub proof fn law_creation(node: NodeView, path: Seq<u8>, i: int)
    requires
        node.wf(),
    ensures
        node.created(path).fds == node.fds,
        0 <= i < node.inodes.len() && components(node.inodes[i].path) == components(path) ==> {
            &&& node.created_at(path) == i
            &&& node.created(path).inodes.len() == node.inodes.len()
            &&& node.created(path).inodes[i].path == node.inodes[i].path
            &&& node.created(path).inodes[i].data.len() == 0
            &&& forall|k: int|
                0 <= k < node.inodes.len() && k != i ==> #[trigger] node.created(path).inodes[k]
                    == node.inodes[k]
        },
        (forall|k: int|
            0 <= k < node.inodes.len() ==> components((#[trigger] node.inodes[k]).path)
                != components(path)) ==> {
            &&& node.created_at(path) == node.inodes.len()
            &&& node.created(path).inodes.len() == node.inodes.len() + 1
            &&& node.created(path).inodes.last().path == path
            &&& node.created(path).inodes.last().data.len() == 0
            &&& forall|k: int|
                0 <= k < node.inodes.len() ==> #[trigger] node.created(path).inodes[k]
                    == node.inodes[k]
        },
{
    law_path_names_its_file(node, path, i);
}

/// A file that is named by another path survives a creation with all its bytes, and is still
/// found under its path.
pub proof fn law_creation_spares_other_paths(node: NodeView, path: Seq<u8>, other: Seq<u8>)
    requires
        node.wf(),
        components(other) != components(path),
        node.lookup(other) is Some,
    ensures
        node.created(path).lookup(other) == node.lookup(other),
        node.created(path).inodes[node.lookup(other).unwrap()]
            == node.inodes[node.lookup(other).unwrap()],
{
    let i = node.lookup(other).unwrap();
    assert(node.names(other, i));
    crate::laws::law_created(node, path, other);
    if node.lookup(path) is Some {
        assert(node.names(path, node.lookup(path).unwrap()));
    }
}

// Descriptors.

/// A descriptor stands for a file while it is in use, and for writing only where it may be
/// written; otherwise it is error 9.
pub proof fn law_file_behind_descriptor(node: NodeView, fd: RawFd)
    ensures
        node.fds.map.contains_key(fd) ==> node.behind(fd, false) == Ok::<int, Error>(
            node.fds.map[fd].inode as int,
        ),
        node.fds.map.contains_key(fd) && node.fds.map[fd].writable ==> node.behind(fd, true)
            == Ok::<int, Error>(node.fds.map[fd].inode as int),
        !node.fds.map.contains_key(fd) ==> node.behind(fd, false) == Err::<int, Error>(
            Error::Os(9),
        ),
        !(node.fds.map.contains_key(fd) && node.fds.map[fd].writable) ==> node.behind(fd, true)
            == Err::<int, Error>(Error::Os(9)),
{
}

/// Handing out a descriptor uses up the next number for the handle's file, with the handle's
/// right to write; taking one out of use makes that number stand for nothing. Neither touches
/// any other descriptor or any file.
pub proof fn law_descriptor_table(node: NodeView, file: FileView, fd: RawFd, other: RawFd)
    requires
        node.fds.next < RawFd::MAX,
    ensures
        node.fd_registered(file).inodes == node.inodes,
        node.fd_registered(file).fds.next == node.fds.next + 1,
        node.fd_registered(file).fds.map.contains_key(node.fds.next),
        node.fd_registered(file).fds.map[node.fds.next] == (FdEntry {
            inode: file.inode,
            writable: file.can_write,
        }),
        other != node.fds.next ==> {
            &&& node.fd_registered(file).fds.map.contains_key(other)
                == node.fds.map.contains_key(other)
            &&& node.fds.map.contains_key(other) ==> node.fd_registered(file).fds.map[other]
                == node.fds.map[other]
        },
        node.fd_unregistered(fd).inodes == node.inodes,
        node.fd_unregistered(fd).fds.next == node.fds.next,
        !node.fd_unregistered(fd).fds.map.contains_key(fd),
        other != fd ==> {
            &&& node.fd_unregistered(fd).fds.map.contains_key(other)
                == node.fds.map.contains_key(other)
            &&& node.fds.map.contains_key(other) ==> node.fd_unregistered(fd).fds.map[other]
                == node.fds.map[other]
        },
{
}

/// Writing through a descriptor changes the bytes of its file in the range written, extends
/// it as far as the range reaches, and fills a gap with zeros. Nothing else changes; where the
/// descriptor may not be written, nothing changes at all.
pub proof fn law_written_through_descriptor(
    node: NodeView,
    fd: RawFd,
    bytes: Seq<u8>,
    offset: int,
    i: int,
)
    requires
        node.wf(),
        0 <= offset,
    ensures
        ({
            let left = node.fd_written(fd, bytes, offset);
            let end = offset + bytes.len();
            &&& node.fds.map.contains_key(fd) && node.fds.map[fd].writable
                && node.fds.map[fd].inode == i ==> {
                let old_data = node.inodes[i].data;
                let data = left.inodes[i].data;
                &&& only_contents_differ(node, left, i)
                &&& data.len() == (if end >= old_data.len() {
                    end
                } else {
                    old_data.len() as int
                })
                &&& forall|k: int| 0 <= k < bytes.len() ==> data[offset + k] == #[trigger] bytes[k]
                &&& forall|k: int|
                    0 <= k < old_data.len() && !(offset <= k < end) ==> #[trigger] data[k]
                        == old_data[k]
                &&& forall|k: int|
                    old_data.len() <= k < data.len() && !(offset <= k < end)
                        ==> #[trigger] data[k] == 0
            }
            &&& !(node.fds.map.contains_key(fd) && node.fds.map[fd].writable) ==> left == node
        }),
{
}

/// Reading through a descriptor yields the bytes of its file from the offset on, as many as
/// there are and as are wanted; a descriptor that is not in use yields none.
pub proof fn law_read_through_descriptor(node: NodeView, fd: RawFd, want: int, offset: int)
    requires
        0 <= offset,
        0 <= want,
    ensures
        ({
            let got = node.fd_read(fd, want, offset);
            &&& node.fds.map.contains_key(fd) ==> {
                let data = node.inodes[node.fds.map[fd].inode as int].data;
                &&& got.len() == count_from(data.len() as int, offset, want)
                &&& forall|k: int| 0 <= k < got.len() ==> #[trigger] got[k] == data[offset + k]
            }
            &&& !node.fds.map.contains_key(fd) ==> got.len() == 0
        }),
{
}

/// Allocating through a descriptor makes its file `offset + len` bytes long where it was
/// shorter, with zeros behind the old bytes. Nothing else changes; where the descriptor may
/// not be written, or no file can be that long, nothing changes at all.
pub proof fn law_allocated_through_descriptor(
    node: NodeView,
    fd: RawFd,
    offset: int,
    len: int,
    i: int,
)
    requires
        node.wf(),
        0 <= offset,
        0 <= len,
    ensures
        ({
            let left = node.fd_allocated(fd, offset, len);
            &&& node.fds.map.contains_key(fd) && node.fds.map[fd].writable
                && node.fds.map[fd].inode == i && offset + len <= usize::MAX ==> {
                let old_data = node.inodes[i].data;
                let data = left.inodes[i].data;
                &&& only_contents_differ(node, left, i)
                &&& data.len() == (if offset + len >= old_data.len() {
                    offset + len
                } else {
                    old_data.len() as int
                })
                &&& forall|k: int| 0 <= k < old_data.len() ==> #[trigger] data[k] == old_data[k]
                &&& forall|k: int| old_data.len() <= k < data.len() ==> #[trigger] data[k] == 0
            }
            &&& !(node.fds.map.contains_key(fd) && node.fds.map[fd].writable) || offset + len
                > usize::MAX ==> left == node
        }),
{
}

/// Whether two nodes differ in nothing but what the file at place `i` holds.
pub open spec fn only_contents_differ(a: NodeView, b: NodeView, i: int) -> bool {
    &&& b.fds == a.fds
    &&& b.inodes.len() == a.inodes.len()
    &&& b.inodes[i].path == a.inodes[i].path
    &&& forall|j: int| 0 <= j < a.inodes.len() && j != i ==> #[trigger] b.inodes[j] == a.inodes[j]
}

/// How many of `size` bytes there are from `offset` on, up to `want`.
pub open spec fn count_from(size: int, offset: int, want: int) -> int {
    if offset >= size {
        0
    } else if offset + want > size {
        size - offset
    } else {
        want
    }
}

// Memory.

/// What is available, what is loaded and what a store leaves, address by address.
pub proof fn law_memory(mem: Map<u64, u8>, addr: u64, len: int, data: Seq<u8>, a: u64)
    requires
        0 <= len,
    ensures
        in_address_space(addr as int, len) <==> addr + len <= 0x1_0000_0000_0000_0000,
        mapped(mem, addr as int, len) <==> {
            &&& addr + len <= 0x1_0000_0000_0000_0000
            &&& forall|b: u64| addr <= b < addr + len ==> #[trigger] mem.contains_key(b)
        },
        loaded(mem, addr as int, len).len() == len,
        addr + len <= 0x1_0000_0000_0000_0000 && addr <= a < addr + len ==> loaded(
            mem,
            addr as int,
            len,
        )[a - addr] == mem[a],
        addr <= a < addr + data.len() ==> {
            &&& stored(mem, addr as int, data).contains_key(a)
            &&& stored(mem, addr as int, data)[a] == data[a - addr]
        },
        !(addr <= a < addr + data.len()) ==> {
            &&& stored(mem, addr as int, data).contains_key(a) == mem.contains_key(a)
            &&& mem.contains_key(a) ==> stored(mem, addr as int, data)[a] == mem[a]
        },
{
}

/// What is stored is loaded again from the same place.
pub proof fn law_load_after_store(mem: Map<u64, u8>, addr: u64, data: Seq<u8>)
    requires
        addr + data.len() <= 0x1_0000_0000_0000_0000,
    ensures
        mapped(stored(mem, addr as int, data), addr as int, data.len() as int),
        loaded(stored(mem, addr as int, data), addr as int, data.len() as int) == data,
{
    assert(loaded(stored(mem, addr as int, data), addr as int, data.len() as int) =~= data);
}

// Operations of a ring.

/// Whether a target leads to descriptor `raw`: it is that descriptor, or an index at which
/// that descriptor is registered.
pub open spec fn leads_to(files: Seq<RawFd>, target: Target, raw: RawFd) -> bool {
    match target {
        Target::Fd(fd) => fd == raw,
        Target::Fixed(index) => index < files.len() && files[index as int] == raw && raw >= 0,
    }
}

/// Whether a target is an index at which no descriptor is registered.
pub open spec fn leads_nowhere(files: Seq<RawFd>, target: Target) -> bool {
    target matches Target::Fixed(index) && (index >= files.len() || files[index as int] < 0)
}

/// How many bytes a transfer of `len` bytes can report in an `i32`.
pub open spec fn at_most(len: u32) -> int {
    if len > 0x7fff_ffff {
        0x7fff_ffff
    } else {
        len as int
    }
}

/// A target resolves to the descriptor that it leads to, or to error 9 where it leads nowhere;
/// every target does one or the other.
pub proof fn law_target(files: Seq<RawFd>, target: Target, raw: RawFd, len: u32)
    ensures
        leads_to(files, target, raw) <==> resolved(files, target) == Ok::<RawFd, Error>(raw),
        leads_nowhere(files, target) <==> resolved(files, target) == Err::<RawFd, Error>(
            Error::Os(9),
        ),
        resolved(files, target) is Ok || leads_nowhere(files, target),
        moved(len) == at_most(len),
{
}

/// A write of a buffer to a file that may be written reports how many bytes it moved. In the
/// file it leaves, those bytes stand at the offset, every other old byte is as it was, and
/// whatever lies between them is zero; the file is as long as it was or as the write reaches.
/// No other file, no descriptor and no memory changes.
pub proof fn law_write_operation(
    files: Seq<RawFd>,
    world: World,
    fd: Target,
    addr: u64,
    len: u32,
    offset: u64,
    raw: RawFd,
    i: int,
)
    requires
        world.node.wf(),
        leads_to(files, fd, raw),
        0 < len,
        addr != 0,
        world.node.fds.map.contains_key(raw),
        world.node.fds.map[raw].writable,
        world.node.fds.map[raw].inode == i,
    ensures
        ({
            let write = Op::Write { fd, addr, len, offset };
            let left = effect(write, files, world);
            let old_data = world.node.inodes[i].data;
            let data = left.node.inodes[i].data;
            let n = at_most(len);
            &&& outcome(write, files, world) == Ok::<int, Error>(n)
            &&& left.mem == world.mem
            &&& only_contents_differ(world.node, left.node, i)
            &&& data.len() == (if offset + n >= old_data.len() {
                offset + n
            } else {
                old_data.len() as int
            })
            &&& forall|k: int|
                offset <= k < offset + n ==> #[trigger] data[k] == world.mem[(addr + (k
                    - offset)) as u64]
            &&& forall|k: int|
                0 <= k < old_data.len() && !(offset <= k < offset + n) ==> #[trigger] data[k]
                    == old_data[k]
            &&& forall|k: int|
                old_data.len() <= k < data.len() && !(offset <= k < offset + n)
                    ==> #[trigger] data[k] == 0
        }),
{
}

/// A read into a buffer reports how many bytes of the file there are from the offset on, up to
/// as many as it can move: none at or beyond the end, and what is left where it crosses the
/// end. The buffer's front then holds those bytes. No other memory, no file and no descriptor
/// changes.
pub proof fn law_read_operation(
    files: Seq<RawFd>,
    world: World,
    fd: Target,
    addr: u64,
    len: u32,
    offset: u64,
    raw: RawFd,
    i: int,
)
    requires
        leads_to(files, fd, raw),
        0 < len,
        addr != 0,
        world.node.fds.map.contains_key(raw),
        world.node.fds.map[raw].inode == i,
    ensures
        ({
            let read = Op::Read { fd, addr, len, offset };
            let left = effect(read, files, world);
            let data = world.node.inodes[i].data;
            let n = count_from(data.len() as int, offset as int, at_most(len));
            &&& outcome(read, files, world) == Ok::<int, Error>(n)
            &&& left.node == world.node
            &&& forall|a: u64|
                addr <= a < addr + n ==> #[trigger] left.mem.contains_key(a) && left.mem[a]
                    == data[offset + (a - addr)]
            &&& forall|a: u64|
                !(addr <= a < addr + n) ==> #[trigger] left.mem.contains_key(a)
                    == world.mem.contains_key(a) && (world.mem.contains_key(a) ==> left.mem[a]
                    == world.mem[a])
        }),
{
}

/// A transfer of no bytes succeeds at once and changes nothing, whatever its target leads to.
/// One of some bytes from or into a null buffer is error 14, and one through a descriptor that
/// is not in use, or that may not be written where it writes, is error 9; these change
/// nothing.
pub proof fn law_transfers_that_move_nothing(
    files: Seq<RawFd>,
    world: World,
    fd: Target,
    addr: u64,
    len: u32,
    offset: u64,
    raw: RawFd,
)
    requires
        leads_to(files, fd, raw),
    ensures
        ({
            let read = Op::Read { fd, addr, len, offset };
            let write = Op::Write { fd, addr, len, offset };
            let absent = !world.node.fds.map.contains_key(raw);
            &&& len == 0 ==> {
                &&& outcome(read, files, world) == Ok::<int, Error>(0)
                &&& outcome(write, files, world) == Ok::<int, Error>(0)
            }
            &&& len > 0 && addr == 0 ==> {
                &&& outcome(read, files, world) == Err::<int, Error>(Error::Os(14))
                &&& outcome(write, files, world) == Err::<int, Error>(Error::Os(14))
            }
            &&& len > 0 && addr != 0 && absent ==> outcome(read, files, world) == Err::<
                int,
                Error,
            >(Error::Os(9))
            &&& len > 0 && addr != 0 && (absent || !world.node.fds.map[raw].writable) ==> outcome(
                write,
                files,
                world,
            ) == Err::<int, Error>(Error::Os(9))
            &&& len == 0 || addr == 0 || absent ==> effect(read, files, world) == world
            &&& len == 0 || addr == 0 || absent || !world.node.fds.map[raw].writable ==> effect(
                write,
                files,
                world,
            ) == world
        }),
{
    assert(stored(world.mem, addr as int, Seq::<u8>::empty()) =~= world.mem);
}

/// An allocation in a file that may be written succeeds with 0 where the file can be that
/// long. The file is then `offset + len` bytes long, or as long as it was if that is more; its
/// old bytes are as they were, and all further ones are zero. No other file, no descriptor and
/// no memory changes.
pub proof fn law_fallocate_operation(
    files: Seq<RawFd>,
    world: World,
    fd: Target,
    offset: u64,
    len: u64,
    raw: RawFd,
    i: int,
)
    requires
        world.node.wf(),
        leads_to(files, fd, raw),
        world.node.fds.map.contains_key(raw),
        world.node.fds.map[raw].writable,
        world.node.fds.map[raw].inode == i,
        offset + len <= usize::MAX,
    ensures
        ({
            let allocate = Op::Fallocate { fd, offset, len };
            let left = effect(allocate, files, world);
            let old_data = world.node.inodes[i].data;
            let data = left.node.inodes[i].data;
            &&& outcome(allocate, files, world) == Ok::<int, Error>(0)
            &&& left.mem == world.mem
            &&& only_contents_differ(world.node, left.node, i)
            &&& data.len() == (if offset + len >= old_data.len() {
                offset + len
            } else {
                old_data.len() as int
            })
            &&& forall|k: int| 0 <= k < old_data.len() ==> #[trigger] data[k] == old_data[k]
            &&& forall|k: int| old_data.len() <= k < data.len() ==> #[trigger] data[k] == 0
        }),
{
}

/// An allocation through a descriptor that is not in use or may not be written is error 9, and
/// one to a length that no file can have is error 27. Neither changes anything.
pub proof fn law_fallocate_refused(
    files: Seq<RawFd>,
    world: World,
    fd: Target,
    offset: u64,
    len: u64,
    raw: RawFd,
)
    requires
        leads_to(files, fd, raw),
    ensures
        ({
            let allocate = Op::Fallocate { fd, offset, len };
            let may = world.node.fds.map.contains_key(raw) && world.node.fds.map[raw].writable;
            &&& !may ==> outcome(allocate, files, world) == Err::<int, Error>(Error::Os(9))
            &&& may && offset + len > usize::MAX ==> outcome(allocate, files, world) == Err::<
                int,
                Error,
            >(Error::Os(27))
            &&& !may || offset + len > usize::MAX ==> effect(allocate, files, world) == world
        }),
{
}

/// A sync succeeds with 0 if and only if the descriptor is in use, and is error 9 otherwise. A
/// `Nop` always succeeds with 0. Neither changes anything.
pub proof fn law_sync_and_nop(files: Seq<RawFd>, world: World, fd: Target, raw: RawFd)
    requires
        leads_to(files, fd, raw),
    ensures
        world.node.fds.map.contains_key(raw) ==> outcome(Op::Fsync { fd }, files, world) == Ok::<
            int,
            Error,
        >(0),
        !world.node.fds.map.contains_key(raw) ==> outcome(Op::Fsync { fd }, files, world)
            == Err::<int, Error>(Error::Os(9)),
        effect(Op::Fsync { fd }, files, world) == world,
        outcome(Op::Nop, files, world) == Ok::<int, Error>(0),
        effect(Op::Nop, files, world) == world,
{
}

/// An operation whose target leads nowhere is error 9, comes before any other error, needs
/// nothing and changes nothing.
pub proof fn law_unregistered_index(
    files: Seq<RawFd>,
    world: World,
    fd: Target,
    addr: u64,
    len: u32,
    size: u64,
    offset: u64,
)
    requires
        leads_nowhere(files, fd),
    ensures
        ({
            let read = Op::Read { fd, addr, len, offset };
            let write = Op::Write { fd, addr, len, offset };
            let sync = Op::Fsync { fd };
            let allocate = Op::Fallocate { fd, offset, len: size };
            &&& outcome(read, files, world) == Err::<int, Error>(Error::Os(9))
            &&& outcome(write, files, world) == Err::<int, Error>(Error::Os(9))
            &&& outcome(sync, files, world) == Err::<int, Error>(Error::Os(9))
            &&& outcome(allocate, files, world) == Err::<int, Error>(Error::Os(9))
            &&& effect(read, files, world) == world
            &&& effect(write, files, world) == world
            &&& effect(sync, files, world) == world
            &&& effect(allocate, files, world) == world
            &&& op_runnable(read, files, world)
            &&& op_runnable(write, files, world)
            &&& op_runnable(sync, files, world)
            &&& op_runnable(allocate, files, world)
        }),
{
}

/// What it takes to run an operation. A transfer needs its buffer, as far as it can move it,
/// unless it moves nothing anyway; a write or an allocation through a descriptor that may be
/// written needs the file to fit the machine, or, for an allocation, to be refused. Nothing
/// else is needed.
pub proof fn law_what_an_operation_needs(
    files: Seq<RawFd>,
    world: World,
    fd: Target,
    addr: u64,
    len: u32,
    size: u64,
    offset: u64,
    raw: RawFd,
)
    requires
        leads_to(files, fd, raw),
    ensures
        ({
            let n = at_most(len);
            let may = world.node.fds.map.contains_key(raw) && world.node.fds.map[raw].writable;
            let buffer = addr + n <= 0x1_0000_0000_0000_0000 && forall|a: u64|
                addr <= a < addr + n ==> #[trigger] world.mem.contains_key(a);
            &&& op_runnable(Op::Nop, files, world)
            &&& op_runnable(Op::Fsync { fd }, files, world)
            &&& op_runnable(Op::Read { fd, addr, len, offset }, files, world) <==> (len == 0 || addr
                == 0 || buffer)
            &&& op_runnable(Op::Write { fd, addr, len, offset }, files, world) <==> (len == 0
                || addr == 0 || (buffer && (!may || offset + n <= isize::MAX)))
            &&& op_runnable(Op::Fallocate { fd, offset, len: size }, files, world) <==> (!may
                || offset + size <= isize::MAX || offset + size > usize::MAX)
        }),
{
}

// Entries and batches.

/// Every operation but `Nop` is aimed at its `fd`, and aiming it elsewhere changes that alone.
pub proof fn law_aim(fd: Target, other: Target, addr: u64, len: u32, size: u64, offset: u64)
    ensures
        aim(Op::Nop) is None,
        aim(Op::Read { fd, addr, len, offset }) == Some(fd),
        aim(Op::Write { fd, addr, len, offset }) == Some(fd),
        aim(Op::Fsync { fd }) == Some(fd),
        aim(Op::Fallocate { fd, offset, len: size }) == Some(fd),
        aimed(Op::Nop, other) == Op::Nop,
        aimed(Op::Read { fd, addr, len, offset }, other) == (Op::Read {
            fd: other,
            addr,
            len,
            offset,
        }),
        aimed(Op::Write { fd, addr, len, offset }, other) == (Op::Write {
            fd: other,
            addr,
            len,
            offset,
        }),
        aimed(Op::Fsync { fd }, other) == (Op::Fsync { fd: other }),
        aimed(Op::Fallocate { fd, offset, len: size }, other) == (Op::Fallocate {
            fd: other,
            offset,
            len: size,
        }),
{
}

/// What an argument of an operation is aimed at: a descriptor at itself, an index at that
/// index.
pub proof fn law_arguments(fd: RawFd, index: u32)
    ensures
        Fd(fd).aimed_at() == Target::Fd(fd),
        Fixed(index).aimed_at() == Target::Fixed(index),
{
}

/// An entry asks for its operation as it stands, unless its lowest flag is set and it is aimed
/// at a descriptor: then it asks for the operation aimed at the index of that number, and a
/// negative one is error 9.
pub proof fn law_what_an_entry_asks_for(entry: Entry, fd: RawFd)
    ensures
        fixed_file(entry.flags) <==> entry.flags@ % 2 == 1,
        aim(entry.op) == Some(Target::Fd(fd)) && entry.flags@ % 2 == 1 && fd >= 0 ==> {
            &&& meant(Target::Fd(fd), entry.flags) == Target::Fixed(fd as u32)
            &&& intended(entry) == Ok::<Op, Error>(aimed(entry.op, Target::Fixed(fd as u32)))
        },
        aim(entry.op) == Some(Target::Fd(fd)) && entry.flags@ % 2 == 1 && fd < 0 ==> intended(
            entry,
        ) == Err::<Op, Error>(Error::Os(9)),
        entry.flags@ % 2 == 0 || !(aim(entry.op) matches Some(Target::Fd(_))) ==> intended(entry)
            == Ok::<Op, Error>(entry.op),
        entry.flags@ % 2 == 0 ==> meant(Target::Fd(fd), entry.flags) == Target::Fd(fd),
{
    let bits: u8 = entry.flags@;
    assert(bits & 1 == bits % 2) by (bit_vector);
}

/// An entry does, needs and reports what the operation that it asks for does, needs and
/// reports: its completion carries its user data, no flags, and the count or the negated
/// error number. An entry that asks for nothing that can be run needs and changes nothing.
pub proof fn law_completion(entry: Entry, files: Seq<RawFd>, world: World)
    ensures
        completion(entry, files, world).user_data == entry.user_data,
        completion(entry, files, world).flags == 0,
        match intended(entry) {
            Ok(op) => {
                &&& entry_outcome(entry, files, world) == outcome(op, files, world)
                &&& entry_effect(entry, files, world) == effect(op, files, world)
                &&& runnable(entry, files, world) == op_runnable(op, files, world)
                &&& outcome(op, files, world) matches Ok(count) ==> {
                    &&& 0 <= count <= 0x7fff_ffff
                    &&& completion(entry, files, world).result == count
                }
                &&& outcome(op, files, world) matches Err(error) ==> (error matches Error::Os(code)
                    && completion(entry, files, world).result == -code && (code == 9 || code == 14
                    || code == 27))
            },
            Err(error) => {
                &&& error == Error::Os(9)
                &&& entry_outcome(entry, files, world) == Err::<int, Error>(error)
                &&& entry_effect(entry, files, world) == world
                &&& runnable(entry, files, world)
                &&& completion(entry, files, world).result == -9
            },
        },
{
}

/// Entries run one after the other: no entries change nothing, and a further entry runs in the
/// world that those before it left. There is one completion for each entry, in submission
/// order, made out in the world in which the entry ran. A batch may be run where each of its
/// entries may.
pub proof fn law_batch(entries: Seq<Entry>, entry: Entry, files: Seq<RawFd>, world: World)
    ensures
        after(Seq::empty(), files, world) == world,
        completions(Seq::empty(), files, world).len() == 0,
        after(entries.push(entry), files, world) == entry_effect(
            entry,
            files,
            after(entries, files, world),
        ),
        completions(entries, files, world).len() == entries.len(),
        completions(entries.push(entry), files, world) == completions(entries, files, world).push(
            completion(entry, files, after(entries, files, world)),
        ),
        all_runnable(Seq::empty(), files, world),
        all_runnable(entries.push(entry), files, world) <==> all_runnable(entries, files, world)
            && runnable(entry, files, world),
{
    let more = entries.push(entry);
    assert(more.drop_last() =~= entries);
    assert(more.take(entries.len() as int) =~= entries);
    assert forall|i: int| 0 <= i < entries.len() implies #[trigger] completions(
        more,
        files,
        world,
    )[i] == completions(entries, files, world)[i] by {
        assert(more.take(i) =~= entries.take(i));
        assert(more[i] == entries[i]);
    }
    assert(completions(more, files, world) =~= completions(entries, files, world).push(
        completion(entry, files, after(entries, files, world)),
    ));
    assert forall|i: int| 0 <= i < entries.len() implies #[trigger] entries[i] == more[i] by {}
    assert(more[entries.len() as int] == entry);
}

// Queues and registrations.

/// What it is to list numbers in some order, and what it is to arrange completions by one.
pub proof fn law_order(order: Seq<usize>, n: nat, batch: Seq<cqueue::Entry>)
    ensures
        is_order(order, n) <==> {
            &&& order.len() == n
            &&& forall|i: int| 0 <= i < order.len() ==> #[trigger] order[i] < n
            &&& forall|i: int, j: int|
                0 <= i < j < order.len() ==> #[trigger] order[i] != #[trigger] order[j]
        },
        arranged(batch, order).len() == order.len(),
        forall|i: int|
            0 <= i < order.len() ==> #[trigger] arranged(batch, order)[i] == batch[order[i] as int],
{
    if forall|i: int, j: int|
        0 <= i < j < order.len() ==> #[trigger] order[i] != #[trigger] order[j] {
        assert(order.no_duplicates());
    }
}

/// The order of completions is what the shuffle makes of `0..n` at the seed, and a further
/// seed is drawn only where there was a choice.
pub proof fn law_generator(seed: u64, n: nat)
    ensures
        next_order(seed, n) == shuffled(seed, ascending(n)),
        ascending(n).len() == n,
        n <= usize::MAX ==> forall|i: int| 0 <= i < n ==> #[trigger] ascending(n)[i] == i,
        n < 2 ==> next_seed(seed, n) == seed,
        n >= 2 ==> next_seed(seed, n) == crate::rng::drawn(seed),
{
}

/// Submitting empties the submission queue and reports how many entries it held. What was
/// ready before stays in front, untouched; behind it stands the completion of each entry,
/// exactly once, in the order that the generator gives. The world is the one that the batch
/// leaves, and the generator has moved on.
pub proof fn law_submission(
    files: Seq<RawFd>,
    before: Stage,
    left: Stage,
    result: Result<usize, Error>,
)
    requires
        submitted(files, before, left, result),
    ensures
        result == Ok::<usize, Error>(before.queue.len() as usize),
        left.queue.len() == 0,
        left.queue_limit == before.queue_limit,
        left.ready_limit == before.ready_limit,
        left.ready.len() == before.ready.len() + before.queue.len(),
        forall|i: int|
            0 <= i < before.ready.len() ==> #[trigger] left.ready[i] == before.ready[i],
        ({
            let order = next_order(before.seed, before.queue.len());
            let all = completions(before.queue, files, before.world);
            &&& order.len() == before.queue.len()
            &&& forall|i: int, j: int|
                0 <= i < j < order.len() ==> #[trigger] order[i] != #[trigger] order[j]
            &&& forall|i: int|
                0 <= i < order.len() ==> #[trigger] order[i] < before.queue.len()
                    && left.ready[before.ready.len() + i] == all[order[i] as int]
            &&& left.ready.to_multiset() == before.ready.to_multiset().add(all.to_multiset())
        }),
        left.world == after(before.queue, files, before.world),
        left.seed == next_seed(before.seed, before.queue.len()),
{
    let added = reaped(before.queue, files, before.world, before.seed);
    vstd::seq_lib::lemma_multiset_commutative(before.ready, added);
}

/// What the parts of a simulation make up.
pub proof fn law_parts(
    sq: &crate::squeue::SubmissionQueue,
    cq: &cqueue::CompletionQueue,
    node: &crate::fs::FsNodeHandle,
    mem: &crate::mem::Memory,
    rng: &crate::rng::GlobalRng,
)
    ensures
        world_of(node, mem).node == node@,
        world_of(node, mem).mem == mem@,
        stage(sq, cq, node, mem, rng) == (Stage {
            queue: sq@,
            queue_limit: sq.limit(),
            ready: cq@,
            ready_limit: cq.limit(),
            world: World { node: node@, mem: mem@ },
            seed: rng@,
        }),
{
}

/// Buffers are registered where none are, and refused with error 16 otherwise.
pub proof fn law_registration(registered: nat, asked: nat)
    ensures
        registered == 0 ==> registration(registered, asked) == (Ok::<(), Error>(()), asked),
        registered > 0 ==> registration(registered, asked) == (
            Err::<(), Error>(Error::Os(16)),
            registered,
        ),
{
}

/// Rounding up yields a power of two not below the number and less than twice the number; for
/// zero it yields one.
pub proof fn law_rounding(n: nat)
    ensures
        is_power_of_two(n) <==> exists|e: nat| n == #[trigger] pow2(e),
        exists|e: nat| rounded_up(n) == #[trigger] pow2(e),
        n == 0 ==> rounded_up(n) == 1,
        n > 0 ==> n <= rounded_up(n) < 2 * n,
{
    lemma_rounded_up(n);
    if n > 0 && rounded_up(n) >= 2 * n {
        let e = choose|e: nat| rounded_up(n) == #[trigger] pow2(e);
        lemma2_to64();
        if e > 0 {
            lemma_pow2_unfold(e);
            let half = pow2((e - 1) as nat);
            assert(is_power_of_two(half));
            assert(half >= n);
        }
    }
}

/// The queues of a ring: a submission queue for at least one entry, and a completion queue of
/// the size asked for, or of twice the submission queue's, each rounded up to a power of two.
/// A new ring has nothing queued and nothing registered.
pub proof fn law_new_ring(ring: IoUring, asked: Option<u32>, entries: u32)
    requires
        fresh(ring, asked, entries),
    ensures
        ring.sq()@.len() == 0,
        ring.cq()@.len() == 0,
        ring.regs().buffers() == 0,
        ring.regs().files().len() == 0,
        exists|e: nat| ring.sq().limit() == #[trigger] pow2(e),
        entries == 0 ==> ring.sq().limit() == 1,
        entries > 0 ==> entries <= ring.sq().limit() < 2 * entries,
        asked is None ==> ring.cq().limit() == 2 * ring.sq().limit(),
        asked matches Some(size) ==> {
            &&& exists|e: nat| ring.cq().limit() == #[trigger] pow2(e)
            &&& size == 0 ==> ring.cq().limit() == 1
            &&& size > 0 ==> size <= ring.cq().limit() < 2 * size
        },
{
    law_rounding(1);
    law_rounding(entries as nat);
    if let Some(size) = asked {
        law_rounding(size as nat);
    }
}

// Values.

/// The numbers of the errors, and which errors carry one.
pub proof fn law_errors(code: i32)
    ensures
        eio_number() == 5,
        ebadf_number() == 9,
        efault_number() == 14,
        ebusy_number() == 16,
        efbig_number() == 27,
        Error::Os(code).errno() == Some(code),
        Error::NotFound.errno() is None,
        Error::PermissionDenied.errno() is None,
{
}

/// An operation is built into an entry without user data and without flags.
pub proof fn law_plain_entry(op: Op)
    ensures
        plain_entry(op).op == op,
        plain_entry(op).user_data == 0,
        plain_entry(op).flags@ == 0,
{
    Flags::lemma_of(0);
}

/// The byte strings that vectors hold, one for one.
pub proof fn law_deep(v: Seq<Vec<u8>>)
    ensures
        crate::path::deep(v).len() == v.len(),
        forall|i: int| 0 <= i < v.len() ==> #[trigger] crate::path::deep(v)[i] == v[i]@,
{
}

} // verus!
