use std::path::Path;

use madsim_io_uring::error::{Error, ErrorKind};
use madsim_io_uring::fs::{self, File, FsNodeHandle, FsSim};
use madsim_io_uring::path::{components_of, same_path};
use madsim_io_uring::squeue::Flags;
use madsim_io_uring::types::FsyncFlags;

#[test]
fn create_open_read_write() {
    let mut sim = FsSim::new();
    sim.create_node(1);
    let node = sim.get_node(1);
    assert_eq!(
        File::open(node, b"file").err().unwrap().kind(),
        ErrorKind::NotFound
    );
    let file = File::create(node, b"file").unwrap();
    file.write_all_at(node, b"hello", 0).unwrap();

    let mut buf = [0u8; 10];
    let read_len = file.read_at(node, &mut buf, 2).unwrap();
    assert_eq!(read_len, 3);
    assert_eq!(&buf[..3], b"llo");
    file.close(node);

    // writing to a read-only file should be denied
    let rofile = File::open(node, b"file").unwrap();
    assert_eq!(
        rofile.write_all_at(node, b"gg", 0).err().unwrap().kind(),
        ErrorKind::PermissionDenied
    );

    // create should truncate existing file
    let file = File::create(node, b"file").unwrap();
    let read_len = file.read_at(node, &mut buf, 0).unwrap();
    assert_eq!(read_len, 0);
}

#[test]
fn errors_carry_their_numbers() {
    assert_eq!(Error::NotFound.raw_os_error(), None);
    assert_eq!(Error::PermissionDenied.raw_os_error(), None);
    assert_eq!(Error::Os(5).raw_os_error(), Some(5));
    assert_eq!(Error::Os(5).kind(), ErrorKind::Os);
}

#[test]
fn handles_share_a_file() {
    let mut node = FsNodeHandle::new();
    let writer = File::create_sync(&mut node, b"dir/file").unwrap();
    let reader = File::open(&node, b"dir//file/").unwrap();
    writer.write_all_at(&mut node, b"shared", 0).unwrap();
    let mut buf = [0u8; 6];
    assert_eq!(reader.read_at(&node, &mut buf, 0).unwrap(), 6);
    assert_eq!(&buf, b"shared");
    assert_eq!(fs::read(&node, b"dir/./file").unwrap(), b"shared");
    assert_eq!(reader.path(&node), b"dir/file");
    assert_eq!(fs::read(&node, b"./dir/file").unwrap_err(), Error::NotFound);
    assert_eq!(fs::metadata(&node, b"dir/file").unwrap().len(), 6);
    assert_eq!(
        fs::metadata(&node, b"file").err().unwrap(),
        Error::NotFound
    );
}

#[test]
fn set_len_cuts_and_extends() {
    let mut node = FsNodeHandle::new();
    let file = File::create(&mut node, b"f").unwrap();
    file.write_all_at(&mut node, b"abcdef", 0).unwrap();
    file.set_len(&mut node, 3).unwrap();
    assert_eq!(fs::read(&node, b"f").unwrap(), b"abc");
    file.set_len_sync(&mut node, 5).unwrap();
    assert_eq!(fs::read(&node, b"f").unwrap(), b"abc\0\0");
    file.sync_all(&mut node).unwrap();
    // A handle that was opened read-only can set the size too.
    let reader = File::open(&node, b"f").unwrap();
    reader.set_len(&mut node, 1).unwrap();
    assert_eq!(fs::read(&node, b"f").unwrap(), b"a");
}

#[test]
fn writes_overlap_extend_and_leave_gaps() {
    let mut node = FsNodeHandle::new();
    let file = File::create(&mut node, b"f").unwrap();
    file.write_all_at(&mut node, b"aaaa", 0).unwrap();
    file.write_all_at(&mut node, b"bb", 1).unwrap();
    assert_eq!(fs::read(&node, b"f").unwrap(), b"abba");
    file.write_all_at(&mut node, b"cc", 3).unwrap();
    assert_eq!(fs::read(&node, b"f").unwrap(), b"abbcc");
    file.write_all_at(&mut node, b"", 7).unwrap();
    assert_eq!(fs::read(&node, b"f").unwrap(), b"abbcc\0\0");
    file.write_all_at(&mut node, b"d", 8).unwrap();
    assert_eq!(fs::read(&node, b"f").unwrap(), b"abbcc\0\0\0d");
}

#[test]
fn reads_leave_the_rest_of_the_buffer() {
    let mut node = FsNodeHandle::new();
    let file = File::create(&mut node, b"f").unwrap();
    file.write_all_at(&mut node, b"xy", 0).unwrap();
    let mut buf = [1u8; 4];
    assert_eq!(file.read_at(&node, &mut buf, 1).unwrap(), 1);
    assert_eq!(buf, [b'y', 1, 1, 1]);
    assert_eq!(file.read_at(&node, &mut buf, 2).unwrap(), 0);
    assert_eq!(file.read_at(&node, &mut buf, u64::MAX).unwrap(), 0);
    assert_eq!(buf, [b'y', 1, 1, 1]);
}

#[test]
fn descriptors_start_at_three_and_are_not_reused() {
    let mut node = FsNodeHandle::new();
    let mut a = File::create(&mut node, b"a").unwrap();
    let mut b = File::open(&node, b"a").unwrap();
    assert_eq!(a.as_raw_fd(&mut node), 3);
    assert_eq!(b.as_raw_fd(&mut node), 4);
    assert_eq!(a.as_raw_fd(&mut node), 3);
    a.close(&mut node);
    let mut c = File::create(&mut node, b"c").unwrap();
    assert_eq!(c.as_raw_fd(&mut node), 5);
    assert_eq!(fs::fsync_fd(&node, 3), Err(Error::Os(libc::EBADF)));
    assert_eq!(fs::fsync_fd(&node, 4), Ok(()));
}

#[test]
fn descriptors_reach_the_file() {
    let mut node = FsNodeHandle::new();
    let mut file = File::create(&mut node, b"f").unwrap();
    let fd = file.as_raw_fd(&mut node);
    assert_eq!(fs::write_at_fd(&mut node, fd, b"abc", 1), Ok(3));
    let mut buf = [0u8; 8];
    assert_eq!(fs::read_at_fd(&node, fd, &mut buf, 0), Ok(4));
    assert_eq!(&buf[..4], b"\0abc");
    assert_eq!(fs::fallocate_fd(&mut node, fd, 4, 2), Ok(()));
    assert_eq!(fs::fallocate_fd(&mut node, fd, 0, 1), Ok(()));
    assert_eq!(fs::read(&node, b"f").unwrap(), b"\0abc\0\0");
    assert_eq!(
        fs::fallocate_fd(&mut node, fd, 1, u64::MAX),
        Err(Error::Os(libc::EFBIG))
    );
    let bad = Err(Error::Os(libc::EBADF));
    assert_eq!(fs::read_at_fd(&node, 99, &mut buf, 0), bad);
    assert_eq!(fs::write_at_fd(&mut node, 99, b"x", 0), bad);
    assert_eq!(
        fs::fallocate_fd(&mut node, 99, 0, 1),
        Err(Error::Os(libc::EBADF))
    );
    let mut reader = File::open(&node, b"f").unwrap();
    let ro = reader.as_raw_fd(&mut node);
    assert_eq!(fs::read_at_fd(&node, ro, &mut buf, 1), Ok(5));
    assert_eq!(fs::write_at_fd(&mut node, ro, b"x", 0), bad);
    assert_eq!(
        fs::fallocate_fd(&mut node, ro, 0, 100),
        Err(Error::Os(libc::EBADF))
    );
}

#[test]
fn nodes_are_apart() {
    let mut sim = FsSim::default();
    sim.create_node(1);
    sim.create_node(2);
    let file = File::create(sim.get_node(1), b"f").unwrap();
    file.write_all_at(sim.get_node(1), b"abc", 0).unwrap();
    assert_eq!(sim.get_file_size(1, b"f").unwrap(), 3);
    assert_eq!(sim.get_file_size(2, b"f").unwrap_err(), Error::NotFound);
    sim.power_fail(1);
    sim.reset_node(1);
    assert_eq!(sim.get_file_size(1, b"f").unwrap(), 3);
    sim.create_node(1);
    assert_eq!(sim.get_file_size(1, b"f").unwrap_err(), Error::NotFound);
}

#[test]
fn paths_are_told_apart_by_components() {
    let paths = [
        "", ".", "/", "//", "./", "/.", "./.", "..", "a", "a/", "a//", "a/.", "./a", ".//a",
        "/a", "//a", "/./a", "a/b", "a//b", "a/./b", "a/../b", ".a",
    ];
    for a in paths {
        for b in paths {
            assert_eq!(
                same_path(a.as_bytes(), b.as_bytes()),
                Path::new(a) == Path::new(b)
            );
        }
        let names: Vec<&[u8]> = Path::new(a)
            .components()
            .map(|c| c.as_os_str().to_str().unwrap().as_bytes())
            .collect();
        assert_eq!(components_of(a.as_bytes()), names);
    }
}

#[test]
fn flags_are_sets() {
    let both = Flags::io_link() | Flags::fixed_file();
    assert_eq!(both.bits(), 5);
    assert!(both.contains(Flags::io_link()));
    assert!(both.contains(Flags::empty()));
    assert!(both.contains(both));
    assert!(!both.contains(Flags::io_drain()));
    assert!(!Flags::io_link().contains(both));
    let mut all = Flags::default();
    for flag in [
        Flags::fixed_file(),
        Flags::io_drain(),
        Flags::io_link(),
        Flags::io_hardlink(),
        Flags::asynchronous(),
        Flags::buffer_select(),
    ] {
        all |= flag;
    }
    assert_eq!(all.bits(), 63);
    assert_eq!(FsyncFlags::empty().bits(), 0);
    assert_eq!((FsyncFlags::default() | FsyncFlags::datasync()).bits(), 1);
    assert_eq!(FsyncFlags::empty(), FsyncFlags::default());
}

#[test]
fn flags_are_ordered_by_containment() {
    let (a, b) = (Flags::io_link(), Flags::io_drain());
    let sets = [Flags::empty(), a, b, a | b, a | b | Flags::fixed_file()];
    for x in sets {
        for y in sets {
            assert_eq!(x.contains(y) && y.contains(x), x == y);
            for z in sets {
                assert!(!(x.contains(y) && y.contains(z)) || x.contains(z));
                assert_eq!(x.contains(y | z), x.contains(y) && x.contains(z));
            }
        }
    }
}

#[test]
fn paths_are_found_once_created() {
    let mut node = FsNodeHandle::new();
    assert_eq!(fs::read(&node, b"f"), Err(Error::NotFound));
    let mut other = File::create(&mut node, b"other").unwrap();
    other.as_raw_fd(&mut node);
    assert_eq!(fs::read(&node, b"f"), Err(Error::NotFound));
    let file = File::create(&mut node, b"f").unwrap();
    assert_eq!(fs::read(&node, b"./f/"), Err(Error::NotFound));
    assert_eq!(fs::read(&node, b"f/"), Ok(Vec::new()));
    file.write_all_at(&mut node, b"kept", 0).unwrap();
    file.close(&mut node);
    other.write_all_at(&mut node, b"x", 9).unwrap();
    other.close(&mut node);
    File::create(&mut node, b"other").unwrap();
    assert_eq!(fs::read(&node, b"f"), Ok(b"kept".to_vec()));
    assert!(File::open(&node, b"f").is_ok());
    assert!(File::open(&node, b"g").is_err());
}

#[test]
fn descriptors_are_found_while_open() {
    let mut node = FsNodeHandle::new();
    let ebadf = Err(Error::Os(libc::EBADF));
    let mut writer = File::create(&mut node, b"f").unwrap();
    let mut reader = File::open(&node, b"f").unwrap();
    assert_eq!(node.inode_for_fd(3, false), ebadf);
    let write_fd = writer.as_raw_fd(&mut node);
    let read_fd = reader.as_raw_fd(&mut node);
    assert_eq!(node.inode_for_fd(write_fd, true), Ok(0));
    assert_eq!(node.inode_for_fd(read_fd, false), Ok(0));
    assert_eq!(node.inode_for_fd(read_fd, true), ebadf);
    File::create(&mut node, b"g").unwrap();
    assert_eq!(node.inode_for_fd(write_fd, false), Ok(0));
    writer.close(&mut node);
    assert_eq!(node.inode_for_fd(write_fd, false), ebadf);
    assert_eq!(node.inode_for_fd(read_fd, false), Ok(0));
    let mut again = File::create(&mut node, b"f").unwrap();
    assert_ne!(again.as_raw_fd(&mut node), write_fd);
    assert_eq!(node.inode_for_fd(write_fd, false), ebadf);
    reader.close(&mut node);
    assert_eq!(node.inode_for_fd(read_fd, false), ebadf);
}
