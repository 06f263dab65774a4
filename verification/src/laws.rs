//! What holds of the simulation as a whole.
use vstd::prelude::*;

use crate::cqueue::{self, arranged, lemma_arranged};
use crate::error::{ebadf_number, ebusy_number, Error};
use crate::fs::{lemma_created, lemma_lookup, lemma_with_data, FileView, NodeView, RawFd};
use crate::inode::{grown, larger, read_bytes, read_count, resized, written};
use crate::mem::{in_address_space, loaded, mapped, stored};
use crate::op::{Op, Target};
use crate::path::{components, pieces, SEPARATOR};
use crate::power::{is_power_of_two, lemma_double, lemma_rounded_up};
use crate::ring::{cq_size, reaped, registration, sq_size};
use crate::rng::{is_order, next_order, next_seed};
use crate::run::{
    after, aim, aimed, all_runnable, channel, completion, completions, effect, entry_effect,
    entry_outcome, intended, lemma_after_alike, lemma_effect_node, meant, moved,
    op_runnable, outcome, resolved, runnable, World,
};
use crate::squeue::{fixed_file, Entry, Flags};

verus! {

// Contents of a file.

/// What was written is read back, at the offset where it was written.
pub proof fn law_read_after_write(data: Seq<u8>, offset: int, bytes: Seq<u8>)
    requires
        0 <= offset,
    ensures
        read_bytes(written(data, offset, bytes), offset, bytes.len() as int) == bytes,
{
    assert(read_bytes(written(data, offset, bytes), offset, bytes.len() as int) =~= bytes);
}

/// A write changes no byte outside its range, zero-fills a gap before it, and never shrinks
/// the file.
pub proof fn law_write_keeps_the_rest(data: Seq<u8>, offset: int, bytes: Seq<u8>, i: int)
    requires
        0 <= offset,
        0 <= i < written(data, offset, bytes).len(),
        !(offset <= i < offset + bytes.len()),
    ensures
        written(data, offset, bytes)[i] == (if i < data.len() {
            data[i]
        } else {
            0
        }),
        written(data, offset, bytes).len() == larger(data.len() as int, offset + bytes.len()),
        written(data, offset, bytes).len() >= data.len(),
{
}

/// Of two writes to the same place, the later one stands.
pub proof fn law_last_write_stands(
    data: Seq<u8>,
    offset: int,
    first: Seq<u8>,
    second: Seq<u8>,
)
    requires
        0 <= offset,
        first.len() == second.len(),
    ensures
        written(written(data, offset, first), offset, second) == written(data, offset, second),
{
    assert(written(written(data, offset, first), offset, second) =~= written(
        data,
        offset,
        second,
    ));
}

/// Reads that start at or beyond the end of the file yield nothing; one that starts before
/// it and wants anything yields something.
pub proof fn law_read_past_end(data: Seq<u8>, offset: int, want: int)
    requires
        0 <= offset,
        0 <= want,
    ensures
        read_count(data, offset, want) == 0 <==> offset >= data.len() || want == 0,
        read_count(data, offset, want) <= want,
        read_bytes(data, offset, want).len() == read_count(data, offset, want),
{
}

/// Allocating space never shrinks a file and changes none of its bytes, the new space reads
/// as zeros, and allocating it again changes nothing.
pub proof fn law_allocation_only_grows(data: Seq<u8>, needed: int)
    requires
        0 <= needed,
    ensures
        grown(data, needed).len() == larger(data.len() as int, needed),
        grown(data, needed).take(data.len() as int) == data,
        forall|i: int| data.len() <= i < needed ==> #[trigger] grown(data, needed)[i] == 0,
        grown(grown(data, needed), needed) == grown(data, needed),
{
    assert(grown(data, needed).take(data.len() as int) =~= data);
    assert(grown(grown(data, needed), needed) =~= grown(data, needed));
}

/// Setting the size of a file gives it that size, zero too, and keeps the bytes that still
/// fit.
pub proof fn law_set_len(data: Seq<u8>, size: int, i: int)
    requires
        0 <= size,
    ensures
        resized(data, size).len() == size,
        0 <= i < size ==> resized(data, size)[i] == (if i < data.len() {
            data[i]
        } else {
            0
        }),
{
}

// Files of a node.

/// Creating a path makes it name an empty file. Every file that was there before is still
/// there, under the same path, and all but the one created hold what they held.
pub proof fn law_created(node: NodeView, path: Seq<u8>, other: Seq<u8>)
    requires
        node.wf(),
    ensures
        node.created(path).wf(),
        node.created(path).lookup(path) == Some(node.created_at(path)),
        node.created(path).data(node.created_at(path)) == Seq::<u8>::empty(),
        components(other) != components(path) ==> node.created(path).lookup(other)
            == node.lookup(other),
        forall|i: int|
            0 <= i < node.inodes.len() && i != node.created_at(path)
                ==> #[trigger] node.created(path).inodes[i] == node.inodes[i],
{
    let after = node.created(path);
    let place = node.created_at(path);
    lemma_created(node, path);
    if node.lookup(path) is Some {
        assert(node.names(path, place));
    }
    assert(after.names(path, place));
    lemma_lookup(after, path, place);
    if components(other) != components(path) {
        if node.lookup(other) is Some {
            let i = node.lookup(other).unwrap();
            assert(node.names(other, i));
            assert(after.names(other, i));
            lemma_lookup(after, other, i);
        } else {
            assert forall|i: int| !after.names(other, i) by {
                if after.names(other, i) {
                    if i < node.inodes.len() {
                        assert(node.names(other, i));
                    }
                }
            }
        }
    }
}

/// What files hold has no bearing on which file a path names.
pub proof fn law_names_stay(node: NodeView, path: Seq<u8>, i: int, data: Seq<u8>)
    requires
        node.wf(),
        0 <= i < node.inodes.len(),
    ensures
        node.with_data(i, data).wf(),
        node.with_data(i, data).lookup(path) == node.lookup(path),
{
    let after = node.with_data(i, data);
    lemma_with_data(node, i, data);
    assert forall|k: int| after.names(path, k) == node.names(path, k) by {}
    if node.lookup(path) is Some {
        let k = node.lookup(path).unwrap();
        assert(node.names(path, k));
        assert(after.names(path, k));
        lemma_lookup(after, path, k);
    }
}

/// A separator at the end of a path makes no difference to which file it names.
pub proof fn law_trailing_separator(path: Seq<u8>)
    requires
        path.len() > 0,
    ensures
        components(path.push(SEPARATOR)) == components(path),
{
    let longer = path.push(SEPARATOR);
    let p = |piece: Seq<u8>| crate::path::is_name(piece);
    crate::path::lemma_pieces_nonempty(path);
    assert(longer.drop_last() =~= path);
    assert(pieces(longer) == pieces(path).push(Seq::<u8>::empty()));
    assert(pieces(longer).filter(p) =~= pieces(path).filter(p)) by {
        reveal(Seq::filter);
        assert(pieces(longer).drop_last() =~= pieces(path));
        assert(!p(Seq::<u8>::empty()));
    }
}

// Histories of a node.

/// What can happen to a node: a path is created, the file at a place comes to hold other
/// bytes, a handle is given a descriptor, a descriptor is given up.
#[verifier::ext_equal]
pub enum NodeEvent {
    Created(Seq<u8>),
    Changed(int, Seq<u8>),
    Registered(FileView),
    Unregistered(RawFd),
}

/// The node after one event.
pub open spec fn happened(node: NodeView, event: NodeEvent) -> NodeView {
    match event {
        NodeEvent::Created(path) => node.created(path),
        NodeEvent::Changed(i, data) => node.with_data(i, data),
        NodeEvent::Registered(file) => node.fd_registered(file),
        NodeEvent::Unregistered(fd) => node.fd_unregistered(fd),
    }
}

/// A node after its whole history, oldest event first.
pub open spec fn lived(events: Seq<NodeEvent>) -> NodeView
    decreases events.len(),
{
    if events.len() == 0 {
        NodeView::init()
    } else {
        happened(lived(events.drop_last()), events.last())
    }
}

/// Whether whatever comes to hold other bytes in a history is a file that is there by then.
pub open spec fn changed_files_exist(events: Seq<NodeEvent>) -> bool {
    forall|k: int|
        0 <= k < events.len() ==> ((#[trigger] events[k]) matches NodeEvent::Changed(i, _) ==> 0
            <= i < lived(events.take(k)).inodes.len())
}

/// Whether every handle that is given a descriptor in a history is of a file that is there by
/// then.
pub open spec fn registered_files_exist(events: Seq<NodeEvent>) -> bool {
    forall|k: int|
        0 <= k < events.len() ==> ((#[trigger] events[k]) matches NodeEvent::Registered(file)
            ==> file.inode < lived(events.take(k)).inodes.len())
}

/// Whether there is a descriptor left whenever a handle is given one in a history.
pub open spec fn descriptors_suffice(events: Seq<NodeEvent>) -> bool {
    forall|k: int|
        0 <= k < events.len() && (#[trigger] events[k]) is Registered ==> lived(
            events.take(k),
        ).fds.next < RawFd::MAX
}

/// What holds of a history holds of it without its last event.
proof fn lemma_history_front(events: Seq<NodeEvent>)
    requires
        events.len() > 0,
    ensures
        events.take(events.len() - 1) == events.drop_last(),
        changed_files_exist(events) ==> changed_files_exist(events.drop_last()),
        registered_files_exist(events) ==> registered_files_exist(events.drop_last()),
        descriptors_suffice(events) ==> descriptors_suffice(events.drop_last()),
{
    let front = events.drop_last();
    assert(events.take(events.len() - 1) =~= front);
    assert forall|k: int| 0 <= k < front.len() implies #[trigger] front[k] == events[k]
        && front.take(k) == events.take(k) by {
        assert(front.take(k) =~= events.take(k));
    }
}

/// Whether event `k` created `path`.
pub open spec fn made(events: Seq<NodeEvent>, k: int, path: Seq<u8>) -> bool {
    &&& 0 <= k < events.len()
    &&& events[k] matches NodeEvent::Created(created)
    &&& components(created) == components(path)
}

/// A path is found exactly when it was created before on that node, whatever else happened.
pub proof fn law_path_is_found_once_created(events: Seq<NodeEvent>, path: Seq<u8>)
    requires
        changed_files_exist(events),
    ensures
        lived(events).lookup(path) is Some <==> exists|k: int| made(events, k, path),
    decreases events.len(),
{
    let node = lived(events);
    if events.len() > 0 {
        let front = events.drop_last();
        let last = events.len() - 1;
        let before = lived(front);
        lemma_history_front(events);
        law_path_is_found_once_created(front, path);
        assert forall|k: int| 0 <= k < last implies made(events, k, path) == made(
            front,
            k,
            path,
        ) by {}
        if before.lookup(path) is Some {
            let k = choose|k: int| made(front, k, path);
            assert(made(events, k, path));
        }
        assert(made(events, last, path) == (events.last() matches NodeEvent::Created(created)
            && components(created) == components(path)));
        if let NodeEvent::Created(created) = events.last() {
            if before.lookup(created) is Some {
                assert(before.names(created, before.lookup(created).unwrap()));
            }
            if components(created) == components(path) {
                if before.lookup(created) is Some {
                    assert(node.names(path, before.lookup(created).unwrap()));
                } else {
                    assert(node.names(path, before.inodes.len() as int));
                }
            }
        }
        assert forall|i: int| before.names(path, i) implies node.names(path, i) by {}
        if before.lookup(path) is Some {
            assert(node.names(path, before.lookup(path).unwrap()));
        }
        if node.lookup(path) is Some {
            let i = node.lookup(path).unwrap();
            assert(node.names(path, i));
            if !made(events, last, path) {
                assert(before.names(path, i));
            }
        }
    }
}

/// Whatever happens to a node keeps it well-formed.
pub proof fn law_history_keeps_node_well_formed(events: Seq<NodeEvent>)
    requires
        changed_files_exist(events),
        registered_files_exist(events),
        descriptors_suffice(events),
    ensures
        lived(events).wf(),
    decreases events.len(),
{
    if events.len() > 0 {
        let before = lived(events.drop_last());
        lemma_history_front(events);
        law_history_keeps_node_well_formed(events.drop_last());
        let event = events[events.len() - 1];
        match event {
            NodeEvent::Created(path) => {
                lemma_created(before, path);
            },
            NodeEvent::Changed(i, data) => {
                lemma_with_data(before, i, data);
            },
            _ => {},
        }
    }
}

/// A path names one and the same file from its creation on, whatever else happens.
pub proof fn law_path_keeps_its_file(events: Seq<NodeEvent>, k: int, path: Seq<u8>)
    requires
        changed_files_exist(events),
        registered_files_exist(events),
        descriptors_suffice(events),
        0 <= k <= events.len(),
        lived(events.take(k)).lookup(path) is Some,
    ensures
        lived(events).lookup(path) == lived(events.take(k)).lookup(path),
    decreases events.len(),
{
    if k == events.len() {
        assert(events.take(k) =~= events);
    } else {
        let front = events.drop_last();
        let before = lived(front);
        let node = lived(events);
        lemma_history_front(events);
        assert(front.take(k) =~= events.take(k));
        law_path_keeps_its_file(front, k, path);
        law_history_keeps_node_well_formed(events);
        let i = before.lookup(path).unwrap();
        assert(before.names(path, i));
        if let NodeEvent::Created(created) = events[events.len() - 1] {
            if before.lookup(created) is Some {
                assert(before.names(created, before.lookup(created).unwrap()));
            }
        }
        assert(node.names(path, i));
        lemma_lookup(node, path, i);
    }
}

// Descriptors.

/// A handle stays held, its descriptor valid, while files are created and written and other
/// handles get and give up descriptors.
pub proof fn law_handle_stays_held(
    node: NodeView,
    file: FileView,
    path: Seq<u8>,
    i: int,
    data: Seq<u8>,
    other: FileView,
    other_fd: RawFd,
)
    requires
        node.wf(),
        node.holds(file),
        0 <= i < node.inodes.len(),
    ensures
        node.created(path).holds(file),
        node.with_data(i, data).holds(file),
        node.fd_registered(other).holds(file),
        file.fd != Some(other_fd) ==> node.fd_unregistered(other_fd).holds(file),
{
    if node.lookup(path) is Some {
        assert(node.names(path, node.lookup(path).unwrap()));
    }
}

/// A new descriptor was never in use, it is past every descriptor handed out before, and it
/// stands for the handle's file until it is taken out of use, from when on it is `EBADF`.
pub proof fn law_descriptor_life(node: NodeView, file: FileView)
    requires
        node.wf(),
        node.holds(file),
        node.fds.next < RawFd::MAX,
    ensures
        !node.fds.map.contains_key(node.fds.next),
        forall|fd: RawFd| #[trigger] node.fds.map.contains_key(fd) ==> fd < node.fds.next,
        node.fd_registered(file).fds.next > node.fds.next,
        node.fd_registered(file).behind(node.fds.next, false) == Ok::<int, Error>(
            file.inode as int,
        ),
        node.fd_registered(file).behind(node.fds.next, true) == (if file.can_write {
            Ok::<int, Error>(file.inode as int)
        } else {
            Err(Error::Os(ebadf_number()))
        }),
        forall|fd: RawFd, need_write: bool| #[trigger]
            node.fd_unregistered(fd).behind(fd, need_write) == Err::<int, Error>(
                Error::Os(ebadf_number()),
            ),
        forall|fd: RawFd| #[trigger] node.fd_unregistered(fd).fds.next == node.fds.next,
{
}

/// Whether event `k` gave a handle the descriptor `fd`.
pub open spec fn gave(events: Seq<NodeEvent>, k: int, fd: RawFd) -> bool {
    &&& 0 <= k < events.len()
    &&& events[k] is Registered
    &&& lived(events.take(k)).fds.next == fd
}

/// Whether event `k` gave a handle the descriptor `fd`, and it was not given up since.
pub open spec fn open_since(events: Seq<NodeEvent>, k: int, fd: RawFd) -> bool {
    &&& gave(events, k, fd)
    &&& forall|j: int|
        k < j < events.len() ==> #[trigger] events[j] != NodeEvent::Unregistered(fd)
}

/// A descriptor is found exactly while a handle that was given it is open: if and only if it
/// was handed out and not given up since. It then stands for that handle's file, which may be
/// written through it if and only if the handle may write. No descriptor is handed out twice.
pub proof fn law_descriptor_is_found_while_open(events: Seq<NodeEvent>, fd: RawFd)
    requires
        descriptors_suffice(events),
    ensures
        lived(events).behind(fd, false) is Ok <==> exists|k: int| open_since(events, k, fd),
        forall|k: int| #[trigger]
            open_since(events, k, fd) ==> {
                let file = events[k]->Registered_0;
                &&& lived(events).behind(fd, false) == Ok::<int, Error>(file.inode as int)
                &&& lived(events).behind(fd, true) == (if file.can_write {
                    Ok::<int, Error>(file.inode as int)
                } else {
                    Err(Error::Os(ebadf_number()))
                })
            },
        forall|j: int, k: int| gave(events, j, fd) && gave(events, k, fd) ==> j == k,
    decreases events.len(),
{
    if events.len() > 0 {
        let front = events.drop_last();
        let last = events.len() - 1;
        let before = lived(front);
        lemma_history_front(events);
        law_descriptor_is_found_while_open(front, fd);
        lemma_handed_out(front);
        assert forall|k: int| 0 <= k < last implies gave(events, k, fd) == gave(front, k, fd) by {
            assert(events.take(k) =~= front.take(k));
        }
        assert forall|k: int| 0 <= k < last implies open_since(events, k, fd) == (open_since(
            front,
            k,
            fd,
        ) && events[last] != NodeEvent::Unregistered(fd)) by {
            if open_since(events, k, fd) {
                assert forall|j: int| k < j < front.len() implies #[trigger] front[j]
                    != NodeEvent::Unregistered(fd) by {
                    assert(front[j] == events[j]);
                }
            }
            if open_since(front, k, fd) {
                assert forall|j: int|
                    k < j < events.len() && events[last] != NodeEvent::Unregistered(
                        fd,
                    ) implies #[trigger] events[j] != NodeEvent::Unregistered(fd) by {
                    if j < last {
                        assert(front[j] == events[j]);
                    }
                }
            }
        }
        assert(open_since(events, last, fd) == (events[last] is Registered && before.fds.next
            == fd));
        if before.behind(fd, false) is Ok {
            let k = choose|k: int| open_since(front, k, fd);
            assert(open_since(events, k, fd) == (events[last] != NodeEvent::Unregistered(fd)));
        }
    }
}

/// Descriptors are handed out in ascending order, and only those handed out are in use.
proof fn lemma_handed_out(events: Seq<NodeEvent>)
    requires
        descriptors_suffice(events),
    ensures
        forall|fd: RawFd| #[trigger]
            lived(events).fds.map.contains_key(fd) ==> fd < lived(events).fds.next,
        forall|k: int, fd: RawFd| #[trigger]
            gave(events, k, fd) ==> fd < lived(events).fds.next,
    decreases events.len(),
{
    if events.len() > 0 {
        let front = events.drop_last();
        lemma_history_front(events);
        lemma_handed_out(front);
        assert(events[events.len() - 1] is Registered ==> lived(front).fds.next < RawFd::MAX);
        assert forall|k: int, fd: RawFd| #[trigger] gave(events, k, fd) implies fd < lived(
            events,
        ).fds.next by {
            assert(events.take(k) =~= front.take(k));
            if k < front.len() {
                assert(gave(front, k, fd));
            }
        }
    }
}

/// Reading and writing through a handle's descriptor is reading and writing the handle's
/// file.
pub proof fn law_descriptor_is_file(
    node: NodeView,
    file: FileView,
    fd: RawFd,
    bytes: Seq<u8>,
    offset: int,
    want: int,
)
    requires
        node.holds(file),
        file.fd == Some(fd),
    ensures
        node.fd_read(fd, want, offset) == read_bytes(
            node.data(file.inode as int),
            offset,
            want,
        ),
        file.can_write ==> node.fd_written(fd, bytes, offset) == node.with_data(
            file.inode as int,
            written(node.data(file.inode as int), offset, bytes),
        ),
        !file.can_write ==> node.fd_written(fd, bytes, offset) == node,
{
}

// Operations of a ring.

/// An operation that fails changes nothing.
pub proof fn law_failure_changes_nothing(op: Op, files: Seq<RawFd>, world: World)
    requires
        outcome(op, files, world) is Err,
    ensures
        effect(op, files, world) == world,
{
    if let Op::Read { fd, addr, len, offset } = op {
        if let Ok(Some(raw)) = channel(files, fd, addr, len) {
            assert(stored(world.mem, addr as int, Seq::<u8>::empty()) =~= world.mem);
        }
    }
}

/// `Nop`, `Fsync` and `Read` change no file; `Nop`, `Fsync`, `Write` and `Fallocate` change
/// no memory; `Nop` always succeeds.
pub proof fn law_who_changes_what(op: Op, files: Seq<RawFd>, world: World)
    ensures
        op is Nop || op is Fsync || op is Read ==> effect(op, files, world).node == world.node,
        op is Nop || op is Fsync || op is Write || op is Fallocate ==> effect(
            op,
            files,
            world,
        ).mem == world.mem,
        op is Nop ==> outcome(op, files, world) == Ok::<int, Error>(0),
{
}

/// An operation changes no file but the one that its target leads to, and a read changes no
/// memory but its buffer.
pub proof fn law_nothing_else_changes(op: Op, files: Seq<RawFd>, world: World, i: int, a: u64)
    requires
        world.node.wf(),
        0 <= i < world.node.inodes.len(),
    ensures
        !(aim(op) matches Some(target) && resolved(files, target) matches Ok(raw)
            && world.node.behind(raw, true) == Ok::<int, Error>(i)) ==> effect(
            op,
            files,
            world,
        ).node.data(i) == world.node.data(i),
        effect(op, files, world).node.inodes[i].path == world.node.inodes[i].path,
        !(op matches Op::Read { fd: _, addr, len, offset: _ } && addr <= a < addr + moved(len))
            && world.mem.contains_key(a) ==> effect(op, files, world).mem[a] == world.mem[a],
{
}

/// A registered file is the same file: an operation aimed at an index does what it does aimed
/// at the descriptor registered there. An index past the registered files, or one at which a
/// negative descriptor is registered, is `EBADF`.
pub proof fn law_registered_file(op: Op, files: Seq<RawFd>, world: World, index: u32)
    ensures
        index < files.len() && files[index as int] >= 0 ==> {
            &&& outcome(aimed(op, Target::Fixed(index)), files, world) == outcome(
                aimed(op, Target::Fd(files[index as int])),
                files,
                world,
            )
            &&& effect(aimed(op, Target::Fixed(index)), files, world) == effect(
                aimed(op, Target::Fd(files[index as int])),
                files,
                world,
            )
        },
        !(index < files.len() && files[index as int] >= 0) && !(op is Nop) ==> outcome(
            aimed(op, Target::Fixed(index)),
            files,
            world,
        ) == Err::<int, Error>(Error::Os(ebadf_number())),
{
}

/// No operation shortens a file.
pub proof fn law_no_operation_shortens(op: Op, files: Seq<RawFd>, world: World, i: int)
    requires
        world.node.wf(),
        0 <= i < world.node.inodes.len(),
    ensures
        effect(op, files, world).node.data(i).len() >= world.node.data(i).len(),
{
}

/// A ring's operations read back what they wrote. Let a write be run, and after it a read of
/// up to as many bytes from where the write put them, into any buffer and through any target
/// that leads to the same file. Both succeed in full, short of what no transfer moves, and
/// the read's buffer then holds what the write's buffer held.
pub proof fn law_operation_round_trip(
    files: Seq<RawFd>,
    world: World,
    to: Target,
    from: Target,
    source: u64,
    len: u32,
    sink: u64,
    want: u32,
    offset: u64,
)
    requires
        world.node.wf(),
        source != 0,
        sink != 0,
        0 < want <= len,
        mapped(world.mem, source as int, moved(len)),
        mapped(world.mem, sink as int, moved(want)),
        resolved(files, to) is Ok,
        resolved(files, from) is Ok,
        world.node.behind(resolved(files, to)->Ok_0, true) is Ok,
        world.node.behind(resolved(files, from)->Ok_0, false) == world.node.behind(
            resolved(files, to)->Ok_0,
            true,
        ),
    ensures
        ({
            let write = Op::Write { fd: to, addr: source, len, offset };
            let read = Op::Read { fd: from, addr: sink, len: want, offset };
            let middle = effect(write, files, world);
            &&& outcome(write, files, world) == Ok::<int, Error>(moved(len))
            &&& outcome(read, files, middle) == Ok::<int, Error>(moved(want))
            &&& loaded(effect(read, files, middle).mem, sink as int, moved(want)) == loaded(
                world.mem,
                source as int,
                moved(len),
            ).take(moved(want))
        }),
{
    let write = Op::Write { fd: to, addr: source, len, offset };
    let i = world.node.behind(resolved(files, to)->Ok_0, true)->Ok_0;
    lemma_effect_node(write, files, world);
    lemma_read_fills(
        files,
        effect(write, files, world),
        from,
        sink,
        want,
        offset,
        i,
        world.node.data(i),
        loaded(world.mem, source as int, moved(len)),
    );
}

/// A read of up to as many bytes as were written to a file, from where they were written,
/// succeeds in full and fills its buffer with them.
proof fn lemma_read_fills(
    files: Seq<RawFd>,
    world: World,
    from: Target,
    sink: u64,
    want: u32,
    offset: u64,
    i: int,
    data: Seq<u8>,
    bytes: Seq<u8>,
)
    requires
        sink != 0,
        0 < want,
        moved(want) <= bytes.len(),
        in_address_space(sink as int, moved(want)),
        resolved(files, from) is Ok,
        world.node.behind(resolved(files, from)->Ok_0, false) == Ok::<int, Error>(i),
        world.node.data(i) == written(data, offset as int, bytes),
    ensures
        ({
            let read = Op::Read { fd: from, addr: sink, len: want, offset };
            &&& outcome(read, files, world) == Ok::<int, Error>(moved(want))
            &&& loaded(effect(read, files, world).mem, sink as int, moved(want)) == bytes.take(
                moved(want),
            )
        }),
{
    let read = Op::Read { fd: from, addr: sink, len: want, offset };
    let got = read_bytes(world.node.data(i), offset as int, moved(want));
    let end = effect(read, files, world);
    assert(got =~= bytes.take(moved(want)));
    assert(loaded(end.mem, sink as int, moved(want)) =~= got) by {
        assert forall|k: int| 0 <= k < moved(want) implies #[trigger] end.mem[(sink + k) as u64]
            == got[k] by {
            let a = (sink + k) as u64;
            assert(a == sink + k);
            assert(end.mem.contains_key(a));
        }
    }
}

// Entries of a ring.

/// Under the flag that says so, a descriptor is an index into the registered files: the entry
/// does what the same entry aimed at that index does, and may be run where that one may. A
/// negative index is `EBADF` and changes nothing. Without the flag, or where an entry is not
/// aimed at a descriptor, it does what its operation does.
pub proof fn law_fixed_file(entry: Entry, files: Seq<RawFd>, world: World, fd: RawFd)
    ensures
        aim(entry.op) == Some(Target::Fd(fd)) && fixed_file(entry.flags) && fd >= 0 ==> {
            let fixed = Entry { op: aimed(entry.op, Target::Fixed(fd as u32)), ..entry };
            &&& meant(Target::Fd(fd), entry.flags) == Target::Fixed(fd as u32)
            &&& entry_outcome(entry, files, world) == entry_outcome(fixed, files, world)
            &&& entry_outcome(entry, files, world) == outcome(fixed.op, files, world)
            &&& entry_effect(entry, files, world) == entry_effect(fixed, files, world)
            &&& entry_effect(entry, files, world) == effect(fixed.op, files, world)
            &&& completion(entry, files, world) == completion(fixed, files, world)
            &&& runnable(entry, files, world) == runnable(fixed, files, world)
        },
        aim(entry.op) == Some(Target::Fd(fd)) && fixed_file(entry.flags) && fd < 0 ==> {
            &&& entry_outcome(entry, files, world) == Err::<int, Error>(Error::Os(ebadf_number()))
            &&& entry_effect(entry, files, world) == world
            &&& runnable(entry, files, world)
        },
        !fixed_file(entry.flags) || !(aim(entry.op) matches Some(Target::Fd(_))) ==> {
            &&& entry_outcome(entry, files, world) == outcome(entry.op, files, world)
            &&& entry_effect(entry, files, world) == effect(entry.op, files, world)
            &&& runnable(entry, files, world) == op_runnable(entry.op, files, world)
        },
{
}

/// An entry's other flags make no difference to what it does, nor does any flag to an entry
/// that is not aimed at a descriptor.
pub proof fn law_other_flags(entry: Entry, flags: Flags, files: Seq<RawFd>, world: World)
    requires
        fixed_file(entry.flags) == fixed_file(flags) || !(aim(entry.op) matches Some(
            Target::Fd(_),
        )),
    ensures
        ({
            let other = Entry { flags, ..entry };
            &&& completion(entry, files, world) == completion(other, files, world)
            &&& entry_effect(entry, files, world) == entry_effect(other, files, world)
            &&& runnable(entry, files, world) == runnable(other, files, world)
        }),
{
}

/// What a completion reports: for a success the number of bytes moved, never below zero; for
/// a failure the negated `errno`, always below zero. An entry that fails changes nothing.
pub proof fn law_reported_sign(entry: Entry, files: Seq<RawFd>, world: World)
    ensures
        match entry_outcome(entry, files, world) {
            Ok(count) => {
                &&& 0 <= count <= i32::MAX
                &&& completion(entry, files, world).result == count
            },
            Err(error) => {
                &&& error.errno() is Some
                &&& completion(entry, files, world).result == -error.errno()->Some_0
                &&& completion(entry, files, world).result < 0
                &&& entry_effect(entry, files, world) == world
            },
        },
{
    if let Ok(op) = intended(entry) {
        if outcome(op, files, world) is Err {
            law_failure_changes_nothing(op, files, world);
        }
    }
}

// Batches.

/// Submitting entries in one batch or in two, the first part first, runs them alike: it
/// leaves the same world and makes out the same completions.
pub proof fn law_batches_compose(
    first: Seq<Entry>,
    second: Seq<Entry>,
    files: Seq<RawFd>,
    world: World,
)
    ensures
        after(first + second, files, world) == after(second, files, after(first, files, world)),
        completions(first + second, files, world) == completions(first, files, world)
            + completions(second, files, after(first, files, world)),
{
    let both = first + second;
    let middle = after(first, files, world);
    lemma_after_compose(first, second, files, world);
    assert forall|i: int| 0 <= i < both.len() implies #[trigger] completions(both, files, world)[i]
        == (completions(first, files, world) + completions(second, files, middle))[i] by {
        if i < first.len() {
            assert(both.take(i) =~= first.take(i));
        } else {
            let k = i - first.len();
            assert(both.take(i) =~= first + second.take(k));
            lemma_after_compose(first, second.take(k), files, world);
        }
    }
    assert(completions(both, files, world) =~= completions(first, files, world) + completions(
        second,
        files,
        middle,
    ));
}

/// Running two batches one after the other is running both as one.
proof fn lemma_after_compose(
    first: Seq<Entry>,
    second: Seq<Entry>,
    files: Seq<RawFd>,
    world: World,
)
    ensures
        after(first + second, files, world) == after(second, files, after(first, files, world)),
    decreases second.len(),
{
    let both = first + second;
    if second.len() == 0 {
        assert(both =~= first);
    } else {
        assert(both.drop_last() =~= first + second.drop_last());
        lemma_after_compose(first, second.drop_last(), files, world);
    }
}

/// A batch yields exactly one completion for each entry, carrying the entry's user data: in
/// whatever order they are reaped, the completion reaped at place `i` is that of the entry at
/// place `order[i]`, and no two are of one entry.
pub proof fn law_one_completion_each(
    queue: Seq<Entry>,
    files: Seq<RawFd>,
    world: World,
    order: Seq<usize>,
)
    requires
        is_order(order, queue.len()),
    ensures
        ({
            let out = arranged(completions(queue, files, world), order);
            &&& out.len() == queue.len()
            &&& out.to_multiset() == completions(queue, files, world).to_multiset()
            &&& forall|i: int|
                0 <= i < out.len() ==> (#[trigger] out[i]).user_data
                    == queue[order[i] as int].user_data
            &&& forall|i: int, j: int|
                0 <= i < j < out.len() ==> #[trigger] order[i] != #[trigger] order[j]
        }),
{
    lemma_arranged(completions(queue, files, world), order);
}

/// The order in which completions are reaped follows from the seed and the number of entries
/// alone: of two batches of one size, submitted at one seed, the completions reaped at one
/// place are those of the entries at one place, whatever the entries are.
pub proof fn law_order_follows_from_seed(
    a: Seq<Entry>,
    b: Seq<Entry>,
    files_a: Seq<RawFd>,
    files_b: Seq<RawFd>,
    world_a: World,
    world_b: World,
    seed: u64,
)
    requires
        a.len() == b.len(),
    ensures
        reaped(a, files_a, world_a, seed).len() == reaped(b, files_b, world_b, seed).len(),
        forall|i: int|
            #![trigger reaped(a, files_a, world_a, seed)[i]]
            #![trigger reaped(b, files_b, world_b, seed)[i]]
            0 <= i < reaped(a, files_a, world_a, seed).len() ==> {
                let k = next_order(seed, a.len())[i] as int;
                &&& reaped(a, files_a, world_a, seed)[i] == completions(a, files_a, world_a)[k]
                &&& reaped(b, files_b, world_b, seed)[i] == completions(b, files_b, world_b)[k]
            },
{
}

/// What comes of submitting batches one after the other, for a generator at `seed`.
#[verifier::ext_equal]
pub struct Session {
    /// The completions of all batches, in the order in which they are reaped.
    pub completions: Seq<cqueue::Entry>,
    pub world: World,
    pub seed: u64,
}

/// The session in which `batches` are submitted one after the other, starting in `world` with
/// a generator at `seed`.
pub open spec fn session(
    batches: Seq<Seq<Entry>>,
    files: Seq<RawFd>,
    world: World,
    seed: u64,
) -> Session
    decreases batches.len(),
{
    if batches.len() == 0 {
        Session { completions: Seq::empty(), world, seed }
    } else {
        let before = session(batches.drop_last(), files, world, seed);
        let batch = batches.last();
        Session {
            completions: before.completions + reaped(batch, files, before.world, before.seed),
            world: after(batch, files, before.world),
            seed: next_seed(before.seed, batch.len()),
        }
    }
}

/// Runs are reproducible: the same batches, submitted in the same world at the same seed,
/// yield the same completions in the same order, the same files and the same memory.
pub proof fn law_runs_are_reproducible(
    batches: Seq<Seq<Entry>>,
    again: Seq<Seq<Entry>>,
    files: Seq<RawFd>,
    world: World,
    other_world: World,
    seed: u64,
)
    requires
        batches =~~= again,
        world =~= other_world,
    ensures
        session(batches, files, world, seed) == session(again, files, other_world, seed),
{
}

/// The seed has no bearing on what entries do: at whatever seed batches are submitted, they
/// leave the same files and the same memory.
pub proof fn law_seed_changes_no_effect(
    batches: Seq<Seq<Entry>>,
    files: Seq<RawFd>,
    world: World,
    seed: u64,
    other_seed: u64,
)
    ensures
        session(batches, files, world, seed).world == session(
            batches,
            files,
            world,
            other_seed,
        ).world,
    decreases batches.len(),
{
    if batches.len() > 0 {
        law_seed_changes_no_effect(batches.drop_last(), files, world, seed, other_seed);
    }
}

/// Whether an entry leaves alone what the file at place `i` holds: it does not ask for what
/// changes files, or it is not aimed at that file.
pub open spec fn spares(entry: Entry, files: Seq<RawFd>, world: World, i: int) -> bool {
    match intended(entry) {
        Err(_) => true,
        Ok(op) => (op is Write || op is Fallocate) ==> !(aim(op) matches Some(target)
            && resolved(files, target) matches Ok(raw) && world.node.behind(raw, true) == Ok::<
            int,
            Error,
        >(i)),
    }
}

/// Entries that all leave a file alone leave what it holds as it was.
proof fn lemma_spared(entries: Seq<Entry>, files: Seq<RawFd>, world: World, i: int)
    requires
        world.node.wf(),
        0 <= i < world.node.inodes.len(),
        forall|k: int|
            0 <= k < entries.len() ==> spares(#[trigger] entries[k], files, world, i),
    ensures
        after(entries, files, world).node.wf(),
        after(entries, files, world).node.fds == world.node.fds,
        after(entries, files, world).node.inodes.len() == world.node.inodes.len(),
        after(entries, files, world).node.data(i) == world.node.data(i),
    decreases entries.len(),
{
    if entries.len() > 0 {
        let front = entries.drop_last();
        assert forall|k: int| 0 <= k < front.len() implies spares(
            #[trigger] front[k],
            files,
            world,
            i,
        ) by {
            assert(front[k] == entries[k]);
        }
        lemma_spared(front, files, world, i);
        let before_last = after(front, files, world);
        let last = entries[entries.len() - 1];
        assert(spares(last, files, world, i));
        if let Ok(op) = intended(last) {
            law_nothing_else_changes(op, files, before_last, i, 0);
            lemma_effect_node(op, files, before_last);
        }
    }
}

/// Running a batch adds and removes no file, and shortens none.
pub proof fn law_batch_shortens_nothing(
    entries: Seq<Entry>,
    files: Seq<RawFd>,
    world: World,
    i: int,
)
    requires
        world.node.wf(),
        0 <= i < world.node.inodes.len(),
    ensures
        after(entries, files, world).node.wf(),
        after(entries, files, world).node.inodes.len() == world.node.inodes.len(),
        after(entries, files, world).node.data(i).len() >= world.node.data(i).len(),
    decreases entries.len(),
{
    if entries.len() > 0 {
        law_batch_shortens_nothing(entries.drop_last(), files, world, i);
        let before_last = after(entries.drop_last(), files, world);
        if let Ok(op) = intended(entries.last()) {
            law_no_operation_shortens(op, files, before_last, i);
            lemma_effect_node(op, files, before_last);
        }
    }
}

/// A ring reads back what it wrote. Let a write be submitted, then other entries that leave
/// its file alone, then a read of up to as many bytes from where the write put them, into any
/// buffer and through any target that leads to the same file. The write reports all its
/// bytes, and the read all that it wanted, short of what no transfer moves, and the read's
/// buffer then holds what the write's buffer held at the start.
pub proof fn law_batch_round_trip(
    files: Seq<RawFd>,
    world: World,
    write: Entry,
    others: Seq<Entry>,
    read: Entry,
    to: Target,
    from: Target,
    source: u64,
    len: u32,
    sink: u64,
    want: u32,
    offset: u64,
)
    requires
        world.node.wf(),
        intended(write) == Ok::<Op, Error>(Op::Write { fd: to, addr: source, len, offset }),
        intended(read) == Ok::<Op, Error>(Op::Read { fd: from, addr: sink, len: want, offset }),
        source != 0,
        sink != 0,
        0 < want <= len,
        mapped(world.mem, source as int, moved(len)),
        mapped(world.mem, sink as int, moved(want)),
        resolved(files, to) is Ok,
        resolved(files, from) is Ok,
        world.node.behind(resolved(files, to)->Ok_0, true) is Ok,
        world.node.behind(resolved(files, from)->Ok_0, false) == world.node.behind(
            resolved(files, to)->Ok_0,
            true,
        ),
        forall|k: int|
            0 <= k < others.len() ==> spares(
                #[trigger] others[k],
                files,
                world,
                world.node.behind(resolved(files, to)->Ok_0, true)->Ok_0,
            ),
    ensures
        ({
            let entries = seq![write] + others + seq![read];
            let out = completions(entries, files, world);
            let end = after(entries, files, world);
            &&& out[0].user_data == write.user_data
            &&& out[0].result == moved(len)
            &&& out.last().user_data == read.user_data
            &&& out.last().result == moved(want)
            &&& loaded(end.mem, sink as int, moved(want)) == loaded(
                world.mem,
                source as int,
                moved(len),
            ).take(moved(want))
        }),
{
    let entries = seq![write] + others + seq![read];
    let bytes = loaded(world.mem, source as int, moved(len));
    let i = world.node.behind(resolved(files, to)->Ok_0, true)->Ok_0;
    let first = entry_effect(write, files, world);
    lemma_effect_node(intended(write)->Ok_0, files, world);
    assert(first.node.data(i) == written(world.node.data(i), offset as int, bytes));
    assert forall|k: int| 0 <= k < others.len() implies spares(
        #[trigger] others[k],
        files,
        first,
        i,
    ) by {
        assert(spares(others[k], files, world, i));
    }
    lemma_spared(others, files, first, i);
    let middle = after(others, files, first);
    let front = seq![write] + others;
    assert(after(seq![write], files, world) == first) by {
        assert(seq![write].drop_last() =~= Seq::<Entry>::empty());
        assert(after(Seq::<Entry>::empty(), files, world) == world);
        assert(seq![write].last() == write);
    }
    lemma_after_compose(seq![write], others, files, world);
    assert(after(front, files, world) == middle);
    assert(entries.drop_last() =~= front);
    assert(entries.last() == read);
    assert(after(entries, files, world) == entry_effect(read, files, middle));
    lemma_read_fills(
        files,
        middle,
        from,
        sink,
        want,
        offset,
        i,
        world.node.data(i),
        bytes,
    );
    let out = completions(entries, files, world);
    assert(entries.take(0) =~= Seq::<Entry>::empty());
    assert(after(entries.take(0), files, world) == world);
    assert(entries.take(entries.len() - 1) =~= front);
    assert(out[0] == completion(write, files, world));
    assert(out[entries.len() - 1] == completion(read, files, middle));
}

/// Running a batch opens and closes no descriptor, adds and removes no file and leaves
/// available the addresses that were; so every handle stays held, and whatever could be
/// submitted before can be submitted again.
pub proof fn law_batch_keeps_handles(
    entries: Seq<Entry>,
    files: Seq<RawFd>,
    world: World,
    file: FileView,
)
    requires
        world.node.wf(),
        world.node.holds(file),
        all_runnable(entries, files, world),
    ensures
        after(entries, files, world).node.wf(),
        after(entries, files, world).node.holds(file),
        all_runnable(entries, files, after(entries, files, world)),
{
    lemma_after_alike(entries, files, world);
    let end = after(entries, files, world);
    assert forall|i: int| 0 <= i < entries.len() implies runnable(
        #[trigger] entries[i],
        files,
        end,
    ) by {
        crate::run::lemma_runnable_alike(entries[i], files, end, world);
    }
}

// Registrations and sizes.

/// Registering buffers is exclusive: while any are registered, another registration is
/// `EBUSY` and changes nothing; once none are, it is accepted.
pub proof fn law_buffers_are_exclusive(first: nat, second: nat)
    ensures
        registration(0, first) == (Ok::<(), Error>(()), first),
        first > 0 ==> registration(registration(0, first).1, second) == (
            Err::<(), Error>(Error::Os(ebusy_number())),
            first,
        ),
{
}

/// The submission queue takes at least as many entries as asked for, and its capacity is the
/// least power of two that does; the completion queue is by default twice as large, and else
/// the least power of two not below the size asked for.
pub proof fn law_queue_sizes(entries: u32, asked: u32)
    ensures
        is_power_of_two(sq_size(entries)),
        sq_size(entries) >= entries,
        sq_size(entries) >= 1,
        forall|p: nat| #[trigger] is_power_of_two(p) && p >= entries ==> sq_size(entries) <= p,
        cq_size(None, entries) == 2 * sq_size(entries),
        is_power_of_two(cq_size(None, entries)),
        is_power_of_two(cq_size(Some(asked), entries)),
        cq_size(Some(asked), entries) >= asked,
        forall|p: nat| #[trigger]
            is_power_of_two(p) && p >= asked ==> cq_size(Some(asked), entries) <= p,
{
    lemma_rounded_up(entries as nat);
    lemma_rounded_up(1);
    lemma_rounded_up(asked as nat);
    lemma_double(sq_size(entries));
}

/// Containment orders sets of flags: a set contains itself, two sets that contain each other
/// are the same, and what contains a set contains all that the set contains. Every set
/// contains the empty one, and it contains a union exactly when it contains both parts.
pub proof fn law_flags(a: u8, b: u8, c: u8)
    ensures
        a & a == a,
        a & b == b && b & a == a ==> a == b,
        a & b == b && b & c == c ==> a & c == c,
        a & 0 == 0,
        a & (b | c) == b | c <==> a & b == b && a & c == c,
        (a | b) & a == a,
        (a | b) & b == b,
{
    assert(a & a == a && a & 0 == 0 && (a | b) & a == a && (a | b) & b == b) by (bit_vector);
    assert(a & b == b && b & a == a ==> a == b) by (bit_vector);
    assert(a & b == b && b & c == c ==> a & c == c) by (bit_vector);
    assert(a & (b | c) == b | c <==> a & b == b && a & c == c) by (bit_vector);
}

} // verus!
