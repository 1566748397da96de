# langbench

A harness that builds and runs the same numerical kernels in many languages,
inside containers, and reports what each backend cost: wall-clock, compute,
startup, CPU time, peak memory, build time and binary sizes, under a pinned
ISA baseline and the machine's own ISA, with a
checksum that every backend must agree on in every mode.

## Layout

- `src/` is the library, verified with Verus. Every public function states
  what it returns in its contract, over `Seq`, `Map` and integer models:
  - `workload`, `discovery`, `document`: the manifests, read from a YAML tree
    into plain values, and the rules a benchmark tree must follow;
  - `runner`, `engine`: the schedule, the round-robin order, the checksum gate,
    quarantine, and the container command lines;
  - `sample`, `analysis`, `stats`, `compare`, `report`: the recorded campaign,
    read back, bucketed, summarized (minimum, lower median, median absolute
    deviation), ranked and compared;
  - `machine`, `energy`, `cli`, `mode`, `output`, `kernel`, `text`: the host
    description, RAPL counters, flags, listings, the merge-sort kernel and the
    string functions everything above is built on.
- `app/` is the binary around the library: argument parsing, the file system,
  Docker, signals, JSON and YAML, the Liquid report template, and the
  WebAssembly boundary of the website.
- `tests/` exercises the library through its public interface.
