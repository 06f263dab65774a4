use madsim_io_uring::error::Error;
use madsim_io_uring::fs::{File, FsNodeHandle};
use madsim_io_uring::mem::Memory;
use madsim_io_uring::rng::GlobalRng;
use madsim_io_uring::op::{Op, Target};
use madsim_io_uring::ring::intended_op;
use madsim_io_uring::run::transfer_len;
use madsim_io_uring::squeue::{Flags, PushError};
use madsim_io_uring::{opcode, types, IoUring};
use rand::seq::SliceRandom;
use rand_xoshiro::rand_core::{RngCore, SeedableRng};
use rand_xoshiro::Xoshiro256PlusPlus;

/// A single-node simulation.
struct Sim {
    node: FsNodeHandle,
    mem: Memory,
    rng: GlobalRng,
}

fn sim_with_seed(seed: u64) -> Sim {
    Sim {
        node: FsNodeHandle::new(),
        mem: Memory::new(),
        rng: GlobalRng::new_with_seed(seed),
    }
}

fn sim() -> Sim {
    sim_with_seed(0)
}

fn submit(ring: &mut IoUring, want: usize, sim: &mut Sim) -> usize {
    assert!(ring.can_submit(&sim.node, &sim.mem));
    ring.submit_and_wait(want, &mut sim.node, &mut sim.mem, &mut sim.rng)
        .unwrap()
}

/// Where buffers are put in these tests.
const DATA: u64 = 0x1000;
const BUF: u64 = 0x2000;

#[test]
fn nop_completes() {
    let mut sim = sim();
    let mut ring = IoUring::new(8).unwrap();
    let entry = opcode::Nop::new().build().user_data(42);
    ring.submission().push(&entry).unwrap();
    assert_eq!(submit(&mut ring, 1, &mut sim), 1);
    let cqe = ring.completion().next().unwrap();
    assert_eq!(cqe.user_data(), 42);
    assert_eq!(cqe.result(), 0);
    assert!(ring.completion().next().is_none());
}

#[test]
fn write_then_read_round_trip() {
    let mut sim = sim();
    let mut file = File::create(&mut sim.node, b"data").unwrap();
    let fd = file.as_raw_fd(&mut sim.node);
    let mut ring = IoUring::new(8).unwrap();

    let data = *b"hello io_uring";
    sim.mem.store(DATA, &data);
    let write = opcode::Write::new(types::Fd(fd), DATA, data.len() as u32)
        .offset(0)
        .build()
        .user_data(1);
    ring.submission().push(&write).unwrap();
    submit(&mut ring, 1, &mut sim);
    let cqe = ring.completion().next().unwrap();
    assert_eq!(cqe.user_data(), 1);
    assert_eq!(cqe.result(), data.len() as i32);

    sim.mem.store(BUF, &[0u8; 32]);
    let read = opcode::Read::new(types::Fd(fd), BUF, 32)
        .offset(0)
        .build()
        .user_data(2);
    ring.submission().push(&read).unwrap();
    submit(&mut ring, 1, &mut sim);
    let cqe = ring.completion().next().unwrap();
    assert_eq!(cqe.user_data(), 2);
    assert_eq!(cqe.result(), data.len() as i32);
    let buf = sim.mem.load(BUF, 32);
    assert_eq!(&buf[..data.len()], &data);
    assert_eq!(&buf[data.len()..], &[0u8; 18]);
}

#[test]
fn read_at_offset_and_past_eof() {
    let mut sim = sim();
    let mut file = File::create(&mut sim.node, b"data").unwrap();
    let fd = file.as_raw_fd(&mut sim.node);
    file.write_all_at(&mut sim.node, b"0123456789", 0).unwrap();
    let mut ring = IoUring::new(8).unwrap();

    // Read the middle of the file.
    sim.mem.store(BUF, &[0u8; 4]);
    let read = opcode::Read::new(types::Fd(fd), BUF, 4)
        .offset(3)
        .build()
        .user_data(1);
    ring.submission().push(&read).unwrap();
    submit(&mut ring, 1, &mut sim);
    assert_eq!(ring.completion().next().unwrap().result(), 4);
    assert_eq!(&sim.mem.load(BUF, 4), b"3456");

    // Read entirely past the end of the file: a zero-length completion.
    let read = opcode::Read::new(types::Fd(fd), BUF, 4)
        .offset(100)
        .build()
        .user_data(2);
    ring.submission().push(&read).unwrap();
    submit(&mut ring, 1, &mut sim);
    assert_eq!(ring.completion().next().unwrap().result(), 0);
}

#[test]
fn bad_descriptor_reports_ebadf() {
    let mut sim = sim();
    let mut ring = IoUring::new(8).unwrap();
    sim.mem.store(BUF, &[0u8; 8]);
    let read = opcode::Read::new(types::Fd(4242), BUF, 8).build().user_data(7);
    ring.submission().push(&read).unwrap();
    submit(&mut ring, 1, &mut sim);
    let cqe = ring.completion().next().unwrap();
    assert_eq!(cqe.user_data(), 7);
    assert_eq!(cqe.result(), -libc::EBADF);
}

#[test]
fn submission_queue_backpressure() {
    let mut ring = IoUring::new(2).unwrap();
    let entry = opcode::Nop::new().build();
    let sq = ring.submission();
    assert_eq!(sq.capacity(), 2);
    sq.push(&entry).unwrap();
    sq.push(&entry).unwrap();
    assert_eq!(sq.push(&entry), Err(PushError));
    assert!(sq.is_full());
    assert_eq!(sq.len(), 2);
}

#[test]
fn batch_submit_pairs_by_user_data() {
    let mut sim = sim();
    let mut file = File::create(&mut sim.node, b"data").unwrap();
    let fd = file.as_raw_fd(&mut sim.node);
    let mut ring = IoUring::new(16).unwrap();

    let chunks: [[u8; 4]; 3] = [*b"aaaa", *b"bbbb", *b"cccc"];
    for (i, chunk) in chunks.iter().enumerate() {
        let addr = DATA + 4 * i as u64;
        sim.mem.store(addr, chunk);
        let write = opcode::Write::new(types::Fd(fd), addr, 4)
            .offset((i * 4) as u64)
            .build()
            .user_data(i as u64);
        ring.submission().push(&write).unwrap();
    }
    assert_eq!(submit(&mut ring, 3, &mut sim), 3);

    let mut seen = Vec::new();
    while let Some(cqe) = ring.completion().next() {
        assert_eq!(cqe.result(), 4);
        seen.push(cqe.user_data());
    }
    seen.sort_unstable();
    assert_eq!(seen, vec![0, 1, 2]);

    let mut buf = [0u8; 12];
    file.read_at(&sim.node, &mut buf, 0).unwrap();
    assert_eq!(&buf, b"aaaabbbbcccc");
}

#[test]
fn fallocate_grows_file() {
    let mut sim = sim();
    let mut file = File::create(&mut sim.node, b"data").unwrap();
    let fd = file.as_raw_fd(&mut sim.node);
    let mut ring = IoUring::new(8).unwrap();

    let entry = opcode::Fallocate::new(types::Fd(fd), 4096)
        .offset(0)
        .build()
        .user_data(1);
    ring.submission().push(&entry).unwrap();
    submit(&mut ring, 1, &mut sim);
    assert_eq!(ring.completion().next().unwrap().result(), 0);

    assert_eq!(file.metadata(&sim.node).unwrap().len(), 4096);
}

#[test]
fn fallocate_overflow_is_rejected() {
    let mut sim = sim();
    let mut file = File::create(&mut sim.node, b"data").unwrap();
    let fd = file.as_raw_fd(&mut sim.node);
    let mut ring = IoUring::new(8).unwrap();
    // `offset + len` overflows u64; the simulator must report an error
    // rather than panic or wrap (which would differ between debug/release).
    let entry = opcode::Fallocate::new(types::Fd(fd), u64::MAX)
        .offset(u64::MAX)
        .build()
        .user_data(1);
    ring.submission().push(&entry).unwrap();
    submit(&mut ring, 1, &mut sim);
    assert_eq!(ring.completion().next().unwrap().result(), -libc::EFBIG);
    assert_eq!(file.metadata(&sim.node).unwrap().len(), 0);
}

#[test]
fn registered_fixed_file() {
    let mut sim = sim();
    let mut file = File::create(&mut sim.node, b"data").unwrap();
    let fd = file.as_raw_fd(&mut sim.node);
    let mut ring = IoUring::new(8).unwrap();
    ring.submitter().register_files(&[fd]).unwrap();

    let data = *b"fixed";
    sim.mem.store(DATA, &data);
    let write = opcode::Write::new(types::Fixed(0), DATA, data.len() as u32)
        .build()
        .user_data(1);
    ring.submission().push(&write).unwrap();
    submit(&mut ring, 1, &mut sim);
    assert_eq!(
        ring.completion().next().unwrap().result(),
        data.len() as i32
    );

    let mut buf = [0u8; 5];
    file.read_at(&sim.node, &mut buf, 0).unwrap();
    assert_eq!(&buf, b"fixed");
}

#[test]
fn fsync_validates_descriptor() {
    let mut sim = sim();
    let mut file = File::create(&mut sim.node, b"data").unwrap();
    let fd = file.as_raw_fd(&mut sim.node);
    let mut ring = IoUring::new(8).unwrap();

    let good = opcode::Fsync::new(types::Fd(fd)).build().user_data(1);
    let bad = opcode::Fsync::new(types::Fd(9999)).build().user_data(2);
    ring.submission().push(&good).unwrap();
    ring.submission().push(&bad).unwrap();
    submit(&mut ring, 2, &mut sim);
    // Completions may arrive in any order; pair them back by user_data.
    let mut results = std::collections::HashMap::new();
    while let Some(cqe) = ring.completion().next() {
        results.insert(cqe.user_data(), cqe.result());
    }
    assert_eq!(results[&1], 0);
    assert_eq!(results[&2], -libc::EBADF);
}

#[test]
fn register_buffers_is_exclusive() {
    let mut ring = IoUring::new(8).unwrap();
    let iov = types::IoVec {
        iov_base: BUF,
        iov_len: 16,
    };
    let submitter = ring.submitter();
    submitter.register_buffers(std::slice::from_ref(&iov)).unwrap();
    // A second registration without unregistering is rejected.
    let err = submitter
        .register_buffers(std::slice::from_ref(&iov))
        .unwrap_err();
    assert_eq!(err.raw_os_error(), Some(libc::EBUSY));
    submitter.unregister_buffers().unwrap();
    // After unregistering, registration succeeds again.
    submitter.register_buffers(std::slice::from_ref(&iov)).unwrap();
}

#[test]
fn works_under_madsim_test_harness() {
    let mut sim = sim();
    let mut file = File::create(&mut sim.node, b"data").unwrap();
    let fd = file.as_raw_fd(&mut sim.node);
    let mut ring = IoUring::new(8).unwrap();

    let data = *b"harness";
    sim.mem.store(DATA, &data);
    let write = opcode::Write::new(types::Fd(fd), DATA, data.len() as u32)
        .build()
        .user_data(1);
    ring.submission().push(&write).unwrap();
    submit(&mut ring, 1, &mut sim);
    assert_eq!(ring.completion().next().unwrap().result(), data.len() as i32);

    let mut buf = [0u8; 7];
    file.read_at(&sim.node, &mut buf, 0).unwrap();
    assert_eq!(&buf, b"harness");
}

/// The observable completion stream must be identical across independent runs.
#[test]
fn deterministic_output() {
    fn scenario() -> Vec<(u64, i32)> {
        let mut sim = sim();
        let mut file = File::create(&mut sim.node, b"data").unwrap();
        let fd = file.as_raw_fd(&mut sim.node);
        let mut ring = IoUring::new(8).unwrap();
        let data = *b"deterministic";
        sim.mem.store(DATA, &data);
        let write = opcode::Write::new(types::Fd(fd), DATA, data.len() as u32)
            .build()
            .user_data(1);
        sim.mem.store(BUF, &[0u8; 16]);
        let read = opcode::Read::new(types::Fd(fd), BUF, 16).build().user_data(2);
        ring.submission().push(&write).unwrap();
        ring.submission().push(&read).unwrap();
        submit(&mut ring, 2, &mut sim);
        let mut v = Vec::new();
        while let Some(cqe) = ring.completion().next() {
            v.push((cqe.user_data(), cqe.result()));
        }
        v
    }

    assert_eq!(scenario(), scenario());
}

/// The order in which one batch of eight entries is reaped.
fn reap_batch(ring: &mut IoUring, sim: &mut Sim) -> Vec<u64> {
    for i in 0..8u64 {
        let entry = opcode::Nop::new().build().user_data(i);
        ring.submission().push(&entry).unwrap();
    }
    submit(ring, 8, sim);
    let mut v = Vec::new();
    while let Some(cqe) = ring.completion().next() {
        v.push(cqe.user_data());
    }
    v
}

/// The simulator models out-of-order completion: across seeds at least one run
/// reaps completions in a non-submission order, and every run still yields the
/// full set of completions (paired by user_data).
#[test]
fn completions_can_be_out_of_order() {
    fn reap_order(seed: u64) -> Vec<u64> {
        let mut sim = sim_with_seed(seed);
        let mut ring = IoUring::new(16).unwrap();
        reap_batch(&mut ring, &mut sim)
    }

    let identity: Vec<u64> = (0..8).collect();
    let mut any_reordered = false;
    for seed in 0..32u64 {
        let order = reap_order(seed);
        let mut sorted = order.clone();
        sorted.sort_unstable();
        assert_eq!(sorted, identity, "all 8 completions must be present (seed {seed})");
        if order != identity {
            any_reordered = true;
        }
    }
    assert!(
        any_reordered,
        "the simulator never reordered completions across 32 seeds"
    );
}

#[test]
fn order_is_the_generators() {
    let mut sim = sim_with_seed(7);
    let mut ring = IoUring::new(8).unwrap();
    let mut seed = 7u64;
    for _ in 0..4 {
        let mut expected: Vec<u64> = (0..8).collect();
        expected.shuffle(&mut Xoshiro256PlusPlus::seed_from_u64(seed));
        assert_eq!(reap_batch(&mut ring, &mut sim), expected);
        seed = Xoshiro256PlusPlus::seed_from_u64(seed).next_u64();
    }
}

#[test]
fn batches_are_not_all_ordered_alike() {
    let mut sim = sim();
    let mut ring = IoUring::new(8).unwrap();
    let first = reap_batch(&mut ring, &mut sim);
    let mut any_other = false;
    for _ in 0..16 {
        any_other |= reap_batch(&mut ring, &mut sim) != first;
    }
    assert!(any_other);
}

#[test]
fn a_single_entry_draws_nothing() {
    let mut plain = sim_with_seed(3);
    let mut busy = sim_with_seed(3);
    let mut ring = IoUring::new(8).unwrap();
    assert_eq!(submit(&mut ring, 0, &mut busy), 0);
    ring.submission().push(&opcode::Nop::new().build()).unwrap();
    assert_eq!(submit(&mut ring, 1, &mut busy), 1);
    assert_eq!(ring.completion().next().unwrap().result(), 0);
    let other = &mut IoUring::new(8).unwrap();
    assert_eq!(reap_batch(&mut ring, &mut busy), reap_batch(other, &mut plain));
}

#[test]
fn null_buffer_reports_efault() {
    let mut sim = sim();
    let mut file = File::create(&mut sim.node, b"data").unwrap();
    let fd = file.as_raw_fd(&mut sim.node);
    let mut ring = IoUring::new(8).unwrap();
    let read = opcode::Read::new(types::Fd(fd), 0, 4).build();
    ring.submission().push(&read).unwrap();
    submit(&mut ring, 1, &mut sim);
    assert_eq!(ring.completion().next().unwrap().result(), -libc::EFAULT);
    let write = opcode::Write::new(types::Fd(fd), 0, 4).build();
    ring.submission().push(&write).unwrap();
    submit(&mut ring, 1, &mut sim);
    assert_eq!(ring.completion().next().unwrap().result(), -libc::EFAULT);
    assert_eq!(file.metadata(&sim.node).unwrap().len(), 0);
}

#[test]
fn zero_length_transfers_succeed_at_once() {
    let mut sim = sim();
    let mut ring = IoUring::new(8).unwrap();
    // Neither the buffer nor the descriptor is looked at.
    let read = opcode::Read::new(types::Fd(4242), 0, 0).build();
    ring.submission().push(&read).unwrap();
    submit(&mut ring, 1, &mut sim);
    assert_eq!(ring.completion().next().unwrap().result(), 0);
    // A registered target is resolved first.
    let write = opcode::Write::new(types::Fixed(0), 0, 0).build();
    ring.submission().push(&write).unwrap();
    submit(&mut ring, 1, &mut sim);
    assert_eq!(ring.completion().next().unwrap().result(), -libc::EBADF);
}

#[test]
fn registered_files_are_resolved() {
    let mut sim = sim();
    let mut file = File::create(&mut sim.node, b"data").unwrap();
    let fd = file.as_raw_fd(&mut sim.node);
    let mut ring = IoUring::new(8).unwrap();
    ring.submitter().register_files(&[-1, fd]).unwrap();
    let expected = [-libc::EBADF, 0, -libc::EBADF];
    for index in 0..3u32 {
        let fsync = opcode::Fsync::new(types::Fixed(index))
            .flags(types::FsyncFlags::datasync())
            .build();
        ring.submission().push(&fsync).unwrap();
        submit(&mut ring, 1, &mut sim);
        assert_eq!(
            ring.completion().next().unwrap().result(),
            expected[index as usize]
        );
    }
    ring.submitter().unregister_files().unwrap();
    ring.submission()
        .push(&opcode::Fsync::new(types::Fixed(1)).build())
        .unwrap();
    submit(&mut ring, 1, &mut sim);
    assert_eq!(ring.completion().next().unwrap().result(), -libc::EBADF);
}

#[test]
fn read_only_descriptor_cannot_be_written() {
    let mut sim = sim();
    File::create(&mut sim.node, b"data").unwrap().close(&mut sim.node);
    let mut file = File::open(&sim.node, b"data").unwrap();
    let fd = file.as_raw_fd(&mut sim.node);
    assert!(!sim.node.is_writable(fd));
    let mut ring = IoUring::new(8).unwrap();
    sim.mem.store(DATA, b"gg");
    // The size asked for is not looked at either.
    let write = opcode::Write::new(types::Fd(fd), DATA, 2)
        .offset(u64::MAX)
        .build();
    ring.submission().push(&write).unwrap();
    submit(&mut ring, 1, &mut sim);
    assert_eq!(ring.completion().next().unwrap().result(), -libc::EBADF);
    let fallocate = opcode::Fallocate::new(types::Fd(fd), 1 << 63).mode(1).build();
    ring.submission().push(&fallocate).unwrap();
    submit(&mut ring, 1, &mut sim);
    assert_eq!(ring.completion().next().unwrap().result(), -libc::EBADF);
    assert_eq!(file.metadata(&sim.node).unwrap().len(), 0);
}

#[test]
fn closed_descriptor_is_bad() {
    let mut sim = sim();
    let mut file = File::create(&mut sim.node, b"data").unwrap();
    let fd = file.as_raw_fd(&mut sim.node);
    assert_eq!(file.as_raw_fd(&mut sim.node), fd);
    file.close(&mut sim.node);
    let mut other = File::open(&sim.node, b"data").unwrap();
    assert!(other.as_raw_fd(&mut sim.node) != fd);
    let mut ring = IoUring::new(8).unwrap();
    ring.submission()
        .push(&opcode::Fsync::new(types::Fd(fd)).build())
        .unwrap();
    submit(&mut ring, 1, &mut sim);
    assert_eq!(ring.completion().next().unwrap().result(), -libc::EBADF);
}

#[test]
fn write_fills_the_gap_with_zeros() {
    let mut sim = sim();
    let mut file = File::create(&mut sim.node, b"data").unwrap();
    let fd = file.as_raw_fd(&mut sim.node);
    file.write_all_at(&mut sim.node, b"ab", 0).unwrap();
    let mut ring = IoUring::new(8).unwrap();
    sim.mem.store(DATA, b"xyz");
    let write = opcode::Write::new(types::Fd(fd), DATA, 3).offset(4).build();
    ring.submission().push(&write).unwrap();
    submit(&mut ring, 1, &mut sim);
    assert_eq!(ring.completion().next().unwrap().result(), 3);
    let mut buf = [9u8; 8];
    assert_eq!(file.read_at(&sim.node, &mut buf, 0).unwrap(), 7);
    assert_eq!(&buf, b"ab\0\0xyz\x09");
}

#[test]
fn entries_of_a_batch_run_in_submission_order() {
    for seed in 0..8 {
        let mut sim = sim_with_seed(seed);
        let mut file = File::create(&mut sim.node, b"data").unwrap();
        let fd = file.as_raw_fd(&mut sim.node);
        let mut ring = IoUring::new(8).unwrap();
        sim.mem.store(DATA, b"one");
        sim.mem.store(BUF, &[0u8; 3]);
        let entries = [
            opcode::Write::new(types::Fd(fd), DATA, 3).build().user_data(1),
            opcode::Read::new(types::Fd(fd), BUF, 3).build().user_data(2),
            // What the read left in the buffer is written behind the first three bytes.
            opcode::Write::new(types::Fd(fd), BUF, 3)
                .offset(3)
                .build()
                .user_data(3),
        ];
        ring.submission().push_multiple(&entries).unwrap();
        assert_eq!(submit(&mut ring, 3, &mut sim), 3);
        assert_eq!(ring.completion().len(), 3);
        assert!(ring.submission().is_empty());
        let mut buf = [0u8; 6];
        assert_eq!(file.read_at(&sim.node, &mut buf, 0).unwrap(), 6);
        assert_eq!(&buf, b"oneone");
    }
}

#[test]
fn push_multiple_is_all_or_nothing() {
    let mut ring = IoUring::new(4).unwrap();
    let entry = opcode::Nop::new().build();
    let sq = ring.submission();
    assert_eq!(sq.push_multiple(&[entry; 5]), Err(PushError));
    assert!(sq.is_empty());
    assert_eq!(sq.push_multiple(&[entry; 3]), Ok(()));
    assert_eq!(sq.push_multiple(&[entry; 2]), Err(PushError));
    assert_eq!(sq.len(), 3);
    assert_eq!(sq.push_multiple(&[entry]), Ok(()));
    assert!(sq.is_full());
    sq.sync();
    assert_eq!(sq.len(), 4);
    assert_eq!(PushError.message(), "submission queue is full");
}

#[test]
fn queue_sizes_are_powers_of_two() {
    for (entries, sq) in [(0, 1), (1, 1), (2, 2), (3, 4), (8, 8), (9, 16), (1000, 1024)] {
        let mut ring = IoUring::new(entries).unwrap();
        assert_eq!(ring.submission().capacity(), sq);
    }
}

#[test]
fn completion_queue_size_can_be_set() {
    let mut sim = sim();
    let mut builder = IoUring::builder();
    builder
        .dontfork()
        .setup_iopoll()
        .setup_sqpoll(10)
        .setup_sqpoll_cpu(1)
        .setup_clamp()
        .setup_attach_wq(3)
        .setup_cqsize(3)
        .setup_r_disabled()
        .setup_submit_all()
        .setup_coop_taskrun()
        .setup_taskrun_flag()
        .setup_defer_taskrun()
        .setup_single_issuer()
        .setup_no_sqarray();
    let mut ring = builder.clone().build(2).unwrap();
    let nop = opcode::Nop::new().build();
    for filled in [2, 4] {
        assert!(!ring.completion().is_full());
        ring.submission().push_multiple(&[nop; 2]).unwrap();
        submit(&mut ring, 2, &mut sim);
        assert_eq!(ring.completion().len(), filled);
    }
    // Four completions fill it; more are kept all the same.
    assert!(ring.completion().is_full());
    ring.submission().push(&nop).unwrap();
    submit(&mut ring, 1, &mut sim);
    assert_eq!(ring.completion().len(), 5);
    assert_eq!(ring.completion().overflow(), 0);
    ring.completion().sync();
    assert!(!ring.completion().is_empty());

    // Without a size, the completion queue is twice the submission queue.
    let mut ring = IoUring::builder().build(3).unwrap();
    for _ in 0..2 {
        assert!(!ring.completion().is_full());
        ring.submission().push_multiple(&[nop; 4]).unwrap();
        submit(&mut ring, 4, &mut sim);
    }
    assert!(ring.completion().is_full());
}

#[test]
fn earlier_completions_are_reaped_first() {
    let mut sim = sim_with_seed(5);
    let mut ring = IoUring::new(8).unwrap();
    for batch in 0..3u64 {
        for i in 0..2u64 {
            let nop = opcode::Nop::new().build().user_data(10 * batch + i);
            ring.submission().push(&nop).unwrap();
        }
        ring.submit(&mut sim.node, &mut sim.mem, &mut sim.rng).unwrap();
    }
    let mut batches = Vec::new();
    while let Some(cqe) = ring.completion().next() {
        assert_eq!(cqe.flags(), 0);
        batches.push(cqe.user_data() / 10);
    }
    assert_eq!(batches, vec![0, 0, 1, 1, 2, 2]);
}

#[test]
fn split_parts_work_side_by_side() {
    let mut sim = sim();
    let mut file = File::create(&mut sim.node, b"data").unwrap();
    let fd = file.as_raw_fd(&mut sim.node);
    let mut ring = IoUring::new(2).unwrap();
    sim.mem.store(DATA, b"abc");
    let (submitter, sq, cq) = ring.split();
    submitter.register_files(&[fd]).unwrap();
    for i in 0..3u64 {
        let write = opcode::Write::new(types::Fixed(0), DATA + i, 1)
            .offset(i)
            .ioprio(1)
            .rw_flags(2)
            .build()
            .personality(3)
            .user_data(i);
        sq.push(&write).unwrap();
        assert!(submitter.can_submit(sq, &sim.node, &sim.mem));
        let n = submitter
            .submit_and_wait(1, sq, cq, &mut sim.node, &mut sim.mem, &mut sim.rng)
            .unwrap();
        assert_eq!(n, 1);
        let cqe = cq.next().unwrap();
        assert_eq!((cqe.user_data(), cqe.result()), (i, 1));
    }
    let n = submitter.submit(sq, cq, &mut sim.node, &mut sim.mem, &mut sim.rng);
    assert_eq!(n.unwrap(), 0);
    assert_eq!(madsim_io_uring::fs::read(&sim.node, b"data").unwrap(), b"abc");
}

#[test]
fn what_cannot_be_run_is_told_beforehand() {
    let mut sim = sim();
    let mut file = File::create(&mut sim.node, b"data").unwrap();
    let fd = file.as_raw_fd(&mut sim.node);
    let mut ring = IoUring::new(8).unwrap();
    // A buffer of which the last byte is missing.
    sim.mem.store(DATA, b"abc");
    let write = opcode::Write::new(types::Fd(fd), DATA, 4).build();
    ring.submission().push(&write).unwrap();
    assert!(!ring.can_submit(&sim.node, &sim.mem));
    sim.mem.store(DATA + 3, b"d");
    assert!(ring.can_submit(&sim.node, &sim.mem));
    // A buffer at the very end of the address space.
    sim.mem.store(u64::MAX - 1, b"yz");
    assert!(sim.mem.maps(u64::MAX - 1, 2));
    assert!(!sim.mem.maps(u64::MAX - 1, 3));
    // A file that would have to be larger than any can be.
    let write = opcode::Write::new(types::Fd(fd), DATA, 4)
        .offset(isize::MAX as u64 - 3)
        .build();
    ring.submission().push(&write).unwrap();
    assert!(!ring.can_submit(&sim.node, &sim.mem));
    let mut ring = IoUring::new(8).unwrap();
    let fallocate = opcode::Fallocate::new(types::Fd(fd), 1 << 63).build();
    ring.submission().push(&fallocate).unwrap();
    assert!(!ring.can_submit(&sim.node, &sim.mem));
}

#[test]
fn buffers_of_length_zero_do_not_occupy_the_ring() {
    let mut ring = IoUring::new(8).unwrap();
    let submitter = ring.submitter();
    submitter.register_buffers(&[]).unwrap();
    let iov = types::IoVec {
        iov_base: BUF,
        iov_len: 1,
    };
    submitter.register_buffers(&[iov, iov]).unwrap();
    assert_eq!(
        submitter.register_buffers(&[]).unwrap_err(),
        Error::Os(libc::EBUSY)
    );
}

/// Runs three entries on one file, in batches that end after the given numbers of entries,
/// and returns what the file and the read buffer hold then, and all completions by user data.
fn run_in_batches(seed: u64, ends: &[usize]) -> (Vec<u8>, Vec<u8>, Vec<(u64, i32)>) {
    let mut sim = sim_with_seed(seed);
    let mut file = File::create(&mut sim.node, b"data").unwrap();
    let fd = file.as_raw_fd(&mut sim.node);
    let mut ring = IoUring::new(4).unwrap();
    sim.mem.store(DATA, b"first!");
    sim.mem.store(BUF, &[0u8; 4]);
    let entries = [
        opcode::Write::new(types::Fd(fd), DATA, 6).build().user_data(1),
        opcode::Read::new(types::Fd(fd), BUF, 4).offset(2).build().user_data(2),
        opcode::Write::new(types::Fd(fd), DATA, 2).offset(4).build().user_data(3),
    ];
    let mut start = 0;
    for &end in ends {
        ring.submission().push_multiple(&entries[start..end]).unwrap();
        assert_eq!(submit(&mut ring, 0, &mut sim), end - start);
        start = end;
    }
    let mut completions = Vec::new();
    while let Some(cqe) = ring.completion().next() {
        completions.push((cqe.user_data(), cqe.result()));
    }
    completions.sort_unstable();
    let data = madsim_io_uring::fs::read(&sim.node, b"data").unwrap();
    (data, sim.mem.load(BUF, 4), completions)
}

#[test]
fn batches_and_seeds_make_no_difference_to_effects() {
    let expected = (
        b"firsfi".to_vec(),
        b"rst!".to_vec(),
        vec![(1, 6), (2, 4), (3, 2)],
    );
    for seed in 0..4 {
        for ends in [&[3][..], &[1, 3], &[2, 3], &[1, 2, 3], &[0, 3]] {
            assert_eq!(run_in_batches(seed, ends), expected);
        }
    }
}

#[test]
fn later_write_stands() {
    let mut sim = sim();
    let mut file = File::create(&mut sim.node, b"data").unwrap();
    let fd = file.as_raw_fd(&mut sim.node);
    let mut ring = IoUring::new(4).unwrap();
    sim.mem.store(DATA, b"onetwo");
    let entries = [
        opcode::Write::new(types::Fd(fd), DATA, 3).offset(1).build(),
        opcode::Write::new(types::Fd(fd), DATA + 3, 3).offset(1).build(),
    ];
    ring.submission().push_multiple(&entries).unwrap();
    submit(&mut ring, 2, &mut sim);
    assert_eq!(
        madsim_io_uring::fs::read(&sim.node, b"data").unwrap(),
        b"\0two"
    );
}

#[test]
fn fixed_file_flag_makes_a_descriptor_an_index() {
    let mut sim = sim();
    let mut file = File::create(&mut sim.node, b"fixed").unwrap();
    let fd = file.as_raw_fd(&mut sim.node);
    let mut ring = IoUring::new(8).unwrap();
    ring.submitter().register_files(&[fd]).unwrap();
    sim.mem.store(DATA, b"fixed");
    sim.mem.store(BUF, &[0u8; 5]);

    let write = opcode::Write::new(types::Fd(0), DATA, 5).build().user_data(1);
    let read = opcode::Read::new(types::Fd(0), BUF, 5).build().user_data(2);
    let fsync = opcode::Fsync::new(types::Fd(0)).build().user_data(3);
    let grow = opcode::Fallocate::new(types::Fd(0), 9).build().user_data(4);
    for entry in [write, read, fsync, grow] {
        ring.submission().push(&entry).unwrap();
        submit(&mut ring, 1, &mut sim);
        let cqe = ring.completion().next().unwrap();
        assert_eq!(cqe.result(), -libc::EBADF);
    }
    for (entry, expected) in [(write, 5), (read, 5), (fsync, 0), (grow, 0)] {
        ring.submission()
            .push(&entry.flags(Flags::fixed_file()))
            .unwrap();
        submit(&mut ring, 1, &mut sim);
        let cqe = ring.completion().next().unwrap();
        assert_eq!(cqe.result(), expected);
    }
    assert_eq!(sim.mem.load(BUF, 5), b"fixed");
    let mut held = [9u8; 16];
    assert_eq!(file.read_at(&sim.node, &mut held, 0), Ok(9));
    assert_eq!(&held[..9], b"fixed\0\0\0\0");
}

#[test]
fn fixed_file_flag_and_bad_indices() {
    let mut sim = sim();
    let mut file = File::create(&mut sim.node, b"f").unwrap();
    let fd = file.as_raw_fd(&mut sim.node);
    let mut ring = IoUring::new(8).unwrap();
    ring.submitter().register_files(&[fd]).unwrap();
    sim.mem.store(DATA, b"x");
    let flags = Flags::fixed_file() | Flags::io_link();

    for entry in [
        opcode::Write::new(types::Fd(-1), DATA, 1).build(),
        opcode::Write::new(types::Fd(-1), DATA, 0).build(),
        opcode::Write::new(types::Fd(-1), 0, 1).build(),
        opcode::Read::new(types::Fd(i32::MIN), 0, 0).build(),
        opcode::Fsync::new(types::Fd(-1)).build(),
        opcode::Fallocate::new(types::Fd(-1), 1).build(),
        opcode::Write::new(types::Fd(1), DATA, 1).build(),
        opcode::Write::new(types::Fd(fd), DATA, 1).build(),
        opcode::Write::new(types::Fixed(1), DATA, 1).build(),
    ] {
        ring.submission().push(&entry.flags(flags)).unwrap();
        submit(&mut ring, 1, &mut sim);
        let cqe = ring.completion().next().unwrap();
        assert_eq!(cqe.result(), -libc::EBADF);
    }
    let nop = opcode::Nop::new().build().flags(flags);
    let fixed = opcode::Write::new(types::Fixed(0), DATA, 1).build().flags(flags);
    for (entry, expected) in [(nop, 0), (fixed, 1)] {
        ring.submission().push(&entry).unwrap();
        submit(&mut ring, 1, &mut sim);
        assert_eq!(ring.completion().next().unwrap().result(), expected);
    }
    assert_eq!(file.metadata(&sim.node).unwrap().len(), 1);
}

#[test]
fn other_flags_make_no_difference() {
    for flags in [
        Flags::empty(),
        Flags::io_drain(),
        Flags::io_link(),
        Flags::io_hardlink(),
        Flags::asynchronous(),
        Flags::buffer_select(),
    ] {
        let mut sim = sim();
        let mut file = File::create(&mut sim.node, b"f").unwrap();
        let fd = file.as_raw_fd(&mut sim.node);
        let mut ring = IoUring::new(8).unwrap();
        ring.submitter().register_files(&[-1, -1, -1, -1]).unwrap();
        sim.mem.store(DATA, b"abc");
        let bad = opcode::Fsync::new(types::Fd(99)).build().user_data(1);
        let write = opcode::Write::new(types::Fd(fd), DATA, 3).build().user_data(2);
        let entries = [bad.flags(flags), write.flags(flags)];
        ring.submission().push_multiple(&entries).unwrap();
        submit(&mut ring, 2, &mut sim);
        for _ in 0..2 {
            let cqe = ring.completion().next().unwrap();
            let expected = if cqe.user_data() == 1 { -libc::EBADF } else { 3 };
            assert_eq!(cqe.result(), expected);
        }
        assert_eq!(file.metadata(&sim.node).unwrap().len(), 3);
    }
}

#[test]
fn flags_decide_what_an_entry_asks_for() {
    let fsync = opcode::Fsync::new(types::Fd(7)).build();
    assert!(matches!(
        intended_op(&fsync),
        Ok(Op::Fsync { fd: Target::Fd(7) })
    ));
    assert!(matches!(
        intended_op(&fsync.flags(Flags::fixed_file())),
        Ok(Op::Fsync { fd: Target::Fixed(7) })
    ));
    let bad = opcode::Fsync::new(types::Fd(-7)).build();
    assert!(matches!(
        intended_op(&bad),
        Ok(Op::Fsync { fd: Target::Fd(-7) })
    ));
    assert!(matches!(
        intended_op(&bad.flags(Flags::fixed_file())),
        Err(Error::Os(libc::EBADF))
    ));
    let nop = opcode::Nop::new().build().flags(Flags::fixed_file());
    assert!(matches!(intended_op(&nop), Ok(Op::Nop)));
}

#[test]
fn long_transfers_are_short() {
    assert_eq!(transfer_len(0), 0);
    assert_eq!(transfer_len(5), 5);
    assert_eq!(transfer_len(0x7fff_ffff), 0x7fff_ffff);
    assert_eq!(transfer_len(0x8000_0000), 0x7fff_ffff);
    assert_eq!(transfer_len(u32::MAX), 0x7fff_ffff);

    // What is refused before any byte is moved is refused at any length.
    let mut sim = sim();
    let mut ring = IoUring::new(8).unwrap();
    let entry = opcode::Write::new(types::Fd(3), 0, u32::MAX).build();
    ring.submission().push(&entry).unwrap();
    submit(&mut ring, 1, &mut sim);
    assert_eq!(ring.completion().next().unwrap().result(), -libc::EFAULT);
}

#[test]
fn single_operations_can_be_run() {
    let mut sim = sim();
    let mut file = File::create(&mut sim.node, b"f").unwrap();
    let fd = file.as_raw_fd(&mut sim.node);
    let mut ring = IoUring::new(8).unwrap();
    let submitter = ring.submitter();
    submitter.register_files(&[fd]).unwrap();
    assert_eq!(submitter.resolve(Target::Fixed(0)), Ok(fd));
    assert_eq!(submitter.resolve(Target::Fixed(1)), Err(Error::Os(libc::EBADF)));
    assert_eq!(submitter.resolve(Target::Fd(-3)), Ok(-3));

    sim.mem.store(DATA, b"operation");
    sim.mem.store(BUF, &[0u8; 4]);
    let write = Op::Write { fd: Target::Fd(fd), addr: DATA, len: 9, offset: 2 };
    let read = Op::Read { fd: Target::Fixed(0), addr: BUF, len: 4, offset: 2 };
    assert!(submitter.can_run_op(write, &sim.node, &sim.mem));
    assert_eq!(submitter.run_op(write, &mut sim.node, &mut sim.mem), Ok(9));
    assert!(submitter.can_run_op(read, &sim.node, &sim.mem));
    assert_eq!(submitter.run_op(read, &mut sim.node, &mut sim.mem), Ok(4));
    assert_eq!(sim.mem.load(BUF, 4), b"oper");

    // Nothing shortens the file.
    for op in [
        Op::Nop,
        Op::Fsync { fd: Target::Fd(fd) },
        Op::Write { fd: Target::Fd(fd), addr: DATA, len: 1, offset: 0 },
        Op::Fallocate { fd: Target::Fd(fd), offset: 0, len: 3 },
    ] {
        submitter.run_op(op, &mut sim.node, &mut sim.mem).unwrap();
        assert_eq!(file.metadata(&sim.node).unwrap().len(), 11);
    }
}
