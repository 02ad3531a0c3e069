# FastDivert

Interception of network packets and file operations: a driver that captures, filters and injects,
and a client library that reads from rings shared with it.

- `src/` is the verified library: what driver and client decide and compute. Objects of the
  platform are numbers in it, and what the platform answers is an argument.
  - `bpf_compiler/`, `network/bpf.rs`: filter texts, the programs they are compiled to, and the
    machine that runs those. `bpf_compiler/semantics.rs` proves that the program of a text decides
    as the text says, and `bpf_compiler/spelling.rs` that spellings of the same text give the same
    program.
  - `ringbuffer/`: records in rings, written by many producers in the driver and read by the
    client.
  - `file_monitor/`, `file_types.rs`, `file_config.rs`: rules on paths, events, and what becomes of
    a file operation.
  - `network/`: the layers of the filtering platform, injection, and setting a handle up.
  - `context.rs`, `file.rs`, `ioctl*.rs`, `driver*.rs`: handles, requests, and the driver's start.
  - `raw.rs`, `packet_*.rs`, `file_policy.rs`, `utils.rs`: what clients do with packets and events.
- `tests/` runs the library on concrete values.
- `app/` is ordinary Rust around the library: devices and services of Windows, threads, the
  callbacks of the driver, and small programs.
