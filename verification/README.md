# vetto

The sandbox layer of `vetto`, an agent runner that confines a coding agent
to its workspace and fails closed: an agent runs under the strongest isolation the
host offers, or not at all. A guarantee the host cannot give is reported as
unsupported, never silently dropped, and a session whose process tree, audit
evidence or ledger cannot be vouched for ends with exit code 125.

The decisions of the sandbox are written in Verus and proved against their
contracts. The system calls, threads, sockets and process plumbing around them
are ordinary Rust.

## Layout

- `src/`: the verified library.
  - `backend`: backend selection and the network modes.
  - `production`: the capability mapping per tier, and the fail-closed verdict
    on a finished session and the checks before its spawn.
  - `linux` and `linux/*`: tier selection, the setup plans of the sandboxed child,
    Landlock rulesets, seccomp programs (checked by a BPF interpreter), the
    eBPF connect redirect, mounts and masks, the network relay's policy,
    protocol and quota decisions, the audit netlink reader, descriptor
    visibility and its cache.
  - `macos`, `macos/net_proxy`: Seatbelt availability, Endpoint Security and
    FSEvents notices, and the host-pinning network broker.
  - `macvm`: the macOS VM backend's config, ssh and sync command lines.
  - `envfilter`, `paths`, `text`, `bpf`: environment filtering, path order,
    text helpers and the classic BPF model.
- `tests/`: tests of the library on concrete values.
- `app/`: the I/O around the library (system calls, threads, ssh, files).
