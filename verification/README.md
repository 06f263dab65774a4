# madsim-io-uring

A deterministic, in-memory simulation of an `io_uring` instance and of the file system behind
it, verified with [Verus](https://github.com/verus-lang/verus).

```rust
use madsim_io_uring::fs::{File, FsNodeHandle};
use madsim_io_uring::mem::Memory;
use madsim_io_uring::rng::GlobalRng;
use madsim_io_uring::{opcode, types, IoUring};

let mut node = FsNodeHandle::new();
let mut mem = Memory::new();
let mut rng = GlobalRng::new_with_seed(0);

let mut file = File::create(&mut node, b"data")?;
let fd = file.as_raw_fd(&mut node);

let mut ring = IoUring::new(8)?;
mem.store(0x1000, b"hello");
let write = opcode::Write::new(types::Fd(fd), 0x1000, 5).offset(0).build().user_data(1);
ring.submission().push(&write).expect("submission queue is full");
ring.submit_and_wait(1, &mut node, &mut mem, &mut rng)?;

let cqe = ring.completion().next().unwrap();
assert_eq!(cqe.user_data(), 1);
assert_eq!(cqe.result(), 5); // bytes written, or negated errno
```

## Layout

- `src/` is the verified library.
  - `ring`, `squeue`, `cqueue`, `opcode`, `op`, `types`, `power`: the ring, its queues, the
    operations that can be queued, and the sizes of queues.
  - `run`: what operations, entries and batches of entries do.
  - `fs`, `inode`, `path`: nodes, files, handles and descriptors.
  - `mem`: the memory that buffers lie in.
  - `rng`: the seeded generator that the order of completions is drawn from.
  - `error`: errors and `errno` numbers.
  - `laws`: what holds of the simulation as a whole.
- `app/` gives the library the shape of the `io-uring` crate and of an asynchronous file
  system: buffers by pointer, shared handles, files that close when dropped.
- `tests/` runs rings and files on concrete values.

## Behaviour

- `push` and `push_multiple` refuse with `PushError` what does not fit the submission queue.
- Submitting executes entries at once and in submission order. Their completions are reaped
  in an order drawn from the generator, behind those of earlier batches, and are paired with
  entries by user data. None is ever dropped.
- `Nop`, `Read`, `Write`, `Fsync` and `Fallocate` are simulated, each aimed at a descriptor or
  at a registered file. Under the flag `fixed_file` a descriptor is an index into the
  registered files; the other submission flags are accepted without effect.
- A completion reports a non-negative byte count or a negated `errno`, in an `i32`. A read or
  write of more than `i32::MAX` bytes is a short one, as a kernel makes it: it moves and
  reports `i32::MAX`.
- `setup_*` tuning is accepted and ignored, except `setup_cqsize`.
