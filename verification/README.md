# kernel_core

The core of a small semantic operating-system kernel, written in Verus and
proved against its contracts: the object registry and its journal, storage
pools and snapshots, the process table, scheduler and ELF loader, the
WireGuard handshake and transport, the phone pairing protocol, DNS, HTTP
chunked decoding, security policy and user accounts, and the system-call
handlers that sit on top of them.

## Layout

- `src/` is the verified library. Each module states its data as views and
  spec functions, and each public function a contract over them. Laws that
  relate several functions are public `proof fn`s named `law_*`.
- `src/block.rs` defines the block-device trait that drivers implement and
  the traced read and write helpers. Functions that use the device (journal
  mount and append, sysroot probe) state the exact sequence of device
  operations they perform, as a ghost log.
- `src/process/manager.rs` does the same for the platform services used to
  start a process from an executable.
- Cryptography and hashing come from RustCrypto crates and `x25519-dalek`,
  through small trusted wrappers (`sha256.rs`, `blake2s.rs`, `chacha_aead.rs`,
  `hkdf_sha256.rs`, `x25519.rs`, `p256_verify.rs`, `text.rs`). Each states what
  the crate's source shows of the call it makes.
- `tests/` holds the tests, run against the compiled library.
- `app/` is the unverified shell: system-call dispatch over user memory,
  sockets, the DNS resolve loop, and the parts that need floating point or
  locks.
