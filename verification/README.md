# sysprog

Small systems-programming exercises, with their logic verified by Verus.

`src/` is the verified library:

- `mmu` — a toy MMU translating 6-bit virtual addresses through an
  eight-entry page table with present, writable and user flags;
- `unsigned` — byte addition that reports, zeroes or clamps on overflow;
- `wordcount` — line, word and byte counts of a byte stream;
- `bitmap` — 8x8 bitmaps between text rows of `#`/`.` and bytes;
- `records` — the fixed-size records used to test file copying;
- `bufio` — the buffering decisions of a block-reading reader and a
  block-writing writer;
- `pool` — the work queue and shutdown flag of a thread pool and the
  workers' decisions;
- `shell` — what a minimal shell does with one line of input;
- `arguments` — sorting a program's command-line arguments;
- `hello` — the greeting.

`app/` holds what Verus does not check: the programs' `main`s, files,
standard input and output, child processes, threads, mutexes and condition
variables. It calls the library for the programs' logic; what it decides
itself is plumbing: refusing a pool of zero workers, and the copy loops, which
end at the first empty read and count the bytes.

`tests/` runs the library on concrete values.
