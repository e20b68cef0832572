use vstd::prelude::*;

pub mod tier;
pub mod bytes;
pub mod slots;
pub mod text;
pub mod der;
pub mod crc32;
pub mod fmt;
pub mod sha256;
pub mod chacha_aead;
pub mod blake2s;
pub mod x25519;
pub mod spki_pin;
pub mod tls_verifier;
pub mod p256_verify;
pub mod proc_cap;
pub mod suid;
pub mod sem_cap;
pub mod object;
pub mod registry;
pub mod block;
pub mod journal;
pub mod search;
pub mod dns;
pub mod hkdf_sha256;
pub mod pairing;
pub mod http;
pub mod syscall;
pub mod security;
pub mod policy;
pub mod evaluation;
pub mod users;
pub mod process;
pub mod scheduler;
pub mod storage;
pub mod wireguard;
pub mod sysroot_blob;
pub mod netlog;
pub mod clock;
pub mod tcp;

