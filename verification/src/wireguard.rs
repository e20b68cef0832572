//! WireGuard data plane: the Noise_IK handshake (both roles) and transport
//! messages with a replay window. Pure protocol: the caller supplies random
//! bytes and the time, and moves the datagrams.
use vstd::prelude::*;
use vstd::string::StringSliceAdditionalSpecFns;
use crate::proc_cap::{bit64, lemma_bit64_and_or, lemma_bit64_or, lemma_bit64_test};
use crate::blake2s::{blake2s_256, keyed_blake2s_256, blake2s_256_spec, keyed_blake2s_spec};
use crate::x25519::{x25519, x25519_base, x25519_spec, basepoint};
use crate::chacha_aead::{chacha_seal, seal, open, aead_len_safe};
use vstd::slice::slice_subrange;
use crate::slots::count_some;
use crate::bytes::{be32, be64, le32, le64, from_le32, from_le64, push_bytes, to_array, u32_to_le, u64_to_le, read_le32, read_le64};

verus! {

pub const MSG_HANDSHAKE_INITIATION: u32 = 1;
pub const MSG_HANDSHAKE_RESPONSE: u32 = 2;
pub const MSG_COOKIE_REPLY: u32 = 3;
pub const MSG_TRANSPORT: u32 = 4;

pub const INITIATION_LEN: usize = 148;
pub const RESPONSE_LEN: usize = 92;
pub const TRANSPORT_HEADER_LEN: usize = 16;

/// TAI64N label of the Unix epoch (2^62 + 10).
pub const TAI64N_BASE: u64 = 0x4000_0000_0000_000a;

/// Counters remembered behind the highest one.
pub const REPLAY_WINDOW_BITS: u64 = 2048;

/// Why a message is refused.
#[derive(Debug, Clone, Copy, PartialEq, Eq, Structural)]
pub enum WgError {
    BadLength,
    BadMessageType,
    BadMac1,
    DecryptFailed,
    UnknownPeer,
    UnknownIndex,
    Replay,
    StaleTimestamp,
    NoSession,
    NoPendingHandshake,
    NoRoom,
    BufferTooSmall,
}

// --- replay window -----------------------------------------------------------

/// Bit `k` of the window (counter `highest - k`), for `0 <= k < 2048`.
pub open spec fn wbit(bm: Seq<u64>, k: int) -> bool {
    0 <= k < REPLAY_WINDOW_BITS && bit64(bm[k / 64], (k % 64) as u64)
}

/// The bitmap after a new highest counter `s` ahead of the old one: every
/// bit moves `s` places and bit 0 (the new counter) is set.
pub open spec fn shifted(old_bm: Seq<u64>, new_bm: Seq<u64>, s: int) -> bool {
    forall|k: int| 0 <= k < REPLAY_WINDOW_BITS ==>
        #[trigger] wbit(new_bm, k) == (k == 0 || (k >= s && wbit(old_bm, k - s)))
}

/// Per-session record of which counters were already received.
pub struct ReplayWindow {
    highest: u64,
    bitmap: [u64; 32],
    seen_any: bool,
}

impl ReplayWindow {
    /// Whether counter `c` is recorded as received.
    pub closed spec fn is_marked(&self, c: u64) -> bool {
        self.seen_any && c <= self.highest && self.highest - c < REPLAY_WINDOW_BITS
            && wbit(self.bitmap@, self.highest - c)
    }

    /// Whether any counter was received.
    pub closed spec fn started(&self) -> bool {
        self.seen_any
    }

    /// The highest counter received.
    pub closed spec fn top(&self) -> u64 {
        self.highest
    }

    /// Whether counter `c` is too old to be judged (outside the window).
    pub closed spec fn too_old(&self, c: u64) -> bool {
        self.seen_any && c <= self.highest && self.highest - c >= REPLAY_WINDOW_BITS
    }

    /// Nothing received.
    pub fn new() -> (r: Self)
        ensures !r.started(), r.top() == 0, forall|c: u64| !r.is_marked(c),
    {
        ReplayWindow { highest: 0, bitmap: [0u64; 32], seen_any: false }
    }

    /// Accept counter `counter` if it was not received before and is not
    /// older than the window; record it. A newer counter moves the window.
    pub fn check_and_mark(&mut self, counter: u64) -> (r: Result<(), WgError>)
        ensures
            r is Err ==> r == Err::<(), WgError>(WgError::Replay) && *final(self) == *old(self),
            r is Err <==> (old(self).is_marked(counter) || old(self).too_old(counter)),
            r is Ok ==> final(self).is_marked(counter) && final(self).started(),
            !old(self).started() ==> final(self).top() == counter
                && forall|c: u64| final(self).is_marked(c) <==> c == counter,
            old(self).started() && counter > old(self).top() ==> final(self).top() == counter
                && forall|c: u64| #[trigger] final(self).is_marked(c) <==>
                    (c == counter || (old(self).is_marked(c) && counter - c < REPLAY_WINDOW_BITS)),
            old(self).started() && counter <= old(self).top() && r is Ok ==> final(self).top() == old(self).top()
                && forall|c: u64| #[trigger] final(self).is_marked(c) <==> (c == counter || old(self).is_marked(c)),
    {
        if !self.seen_any {
            self.seen_any = true;
            self.highest = counter;
            self.bitmap = [0u64; 32];
            self.bitmap[0] = 1;
            proof {
                lemma_first_bit(self.bitmap@);
                assert forall|c: u64| self.is_marked(c) <==> c == counter by {
                    if c <= counter && counter - c < REPLAY_WINDOW_BITS {
                        assert(wbit(self.bitmap@, counter - c) == (counter - c == 0));
                    }
                }
            }
            return Ok(());
        }
        if counter > self.highest {
            let ghost old_bm = self.bitmap@;
            let ghost old_w = *self;
            let shift = counter - self.highest;
            if shift >= REPLAY_WINDOW_BITS {
                self.bitmap = [0u64; 32];
                self.bitmap[0] = 1;
                proof {
                    lemma_first_bit(self.bitmap@);
                    assert(shifted(old_bm, self.bitmap@, shift as int));
                }
            } else {
                let old = self.bitmap;
                let ws = (shift / 64) as usize;
                let bs = shift % 64;
                let mut fresh = [0u64; 32];
                let mut j: usize = 0;
                while j < 32
                    invariant
                        j <= 32, ws < 32, bs < 64, ws * 64 + bs == shift, old@ == old_bm, fresh@.len() == 32,
                        forall|m: int| 0 <= m < j ==> #[trigger] fresh@[m] == shift_word(old@, ws as int, bs, m),
                    decreases 32 - j,
                {
                    let a: u64 = if j >= ws { old[j - ws] << bs } else { 0 };
                    let c: u64 = if bs != 0 && j >= ws + 1 { old[j - ws - 1] >> (64 - bs) } else { 0 };
                    fresh[j] = a | c;
                    j += 1;
                }
                fresh[0] = fresh[0] | 1;
                proof {
                    lemma_shift_window(old_bm, fresh@, ws as int, bs, shift as int);
                }
                self.bitmap = fresh;
            }
            self.highest = counter;
            proof {
                let s = shift as int;
                assert forall|c: u64| #[trigger] self.is_marked(c) <==>
                    (c == counter || (old_w.is_marked(c) && counter - c < REPLAY_WINDOW_BITS)) by {
                    if c <= counter && counter - c < REPLAY_WINDOW_BITS {
                        let k = counter - c;
                        assert(wbit(self.bitmap@, k as int) == (k == 0 || (k >= s && wbit(old_bm, k - s))));
                        if k >= s {
                            assert(k - s == old_w.highest - c);
                        }
                    }
                }
            }
            return Ok(());
        }
        let diff = self.highest - counter;
        if diff >= REPLAY_WINDOW_BITS {
            return Err(WgError::Replay);
        }
        let word = (diff / 64) as usize;
        let bit = diff % 64;
        proof {
            lemma_bit64_test(self.bitmap@[word as int], bit);
        }
        if self.bitmap[word] & (1u64 << bit) != 0 {
            return Err(WgError::Replay);
        }
        let ghost old_w = *self;
        let w = self.bitmap[word];
        self.bitmap[word] = w | (1u64 << bit);
        proof {
            assert forall|c: u64| #[trigger] self.is_marked(c) <==> (c == counter || old_w.is_marked(c)) by {
                if c <= self.highest && self.highest - c < REPLAY_WINDOW_BITS {
                    let k = self.highest - c;
                    lemma_bit64_or(w, (k % 64) as u64, bit);
                    if k / 64 != word as int {
                        assert(self.bitmap@[k / 64] == old_w.bitmap@[k / 64]);
                    } else {
                        if (k % 64) as u64 == bit {
                            assert(k == diff);
                        }
                    }
                }
            }
            lemma_bit64_or(w, bit, bit);
        }
        Ok(())
    }
}

/// Word `m` of the bitmap moved by `ws` words and `bs` bits.
pub open spec fn shift_word(old: Seq<u64>, ws: int, bs: u64, m: int) -> u64 {
    (if m >= ws { old[m - ws] << bs } else { 0u64 })
        | (if bs != 0 && m >= ws + 1 { old[m - ws - 1] >> ((64 - bs) as u64) } else { 0u64 })
}

/// A bitmap whose first word is 1 and the rest 0 holds exactly bit 0.
proof fn lemma_first_bit(bm: Seq<u64>)
    requires bm.len() == 32, bm[0] == 1, forall|m: int| 1 <= m < 32 ==> bm[m] == 0,
    ensures forall|k: int| 0 <= k < REPLAY_WINDOW_BITS ==> #[trigger] wbit(bm, k) == (k == 0),
{
    assert forall|k: int| 0 <= k < REPLAY_WINDOW_BITS implies #[trigger] wbit(bm, k) == (k == 0) by {
        let b = (k % 64) as u64;
        lemma_bit64_one_zero(b);
        if k / 64 == 0 {
            assert(k == b);
        }
    }
}

/// Bits of 0 and 1.
proof fn lemma_bit64_one_zero(b: u64)
    requires b < 64,
    ensures !bit64(0, b), bit64(1, b) == (b == 0),
{
    assert(((0u64 >> b) & 1u64 == 1u64) == false && (((1u64 >> b) & 1u64 == 1u64) == (b == 0)))
        by (bit_vector) requires b < 64;
}

/// Bits of a left shift.
proof fn lemma_shl_bit(x: u64, bs: u64, b: u64)
    requires bs < 64, b < 64,
    ensures bit64(x << bs, b) == (b >= bs && bit64(x, (b - bs) as u64)),
{
    assert((((x << bs) >> b) & 1u64 == 1u64) == (b >= bs && ((x >> ((b - bs) as u64)) & 1u64 == 1u64)))
        by (bit_vector) requires bs < 64, b < 64;
}

/// Bits of the right shift that carries into the next word.
proof fn lemma_shr_bit(x: u64, bs: u64, b: u64)
    requires 0 < bs < 64, b < 64,
    ensures bit64(x >> ((64 - bs) as u64), b) == (b < bs && bit64(x, (b + 64 - bs) as u64)),
{
    assert((((x >> ((64 - bs) as u64)) >> b) & 1u64 == 1u64)
        == (b < bs && ((x >> ((b + 64 - bs) as u64)) & 1u64 == 1u64)))
        by (bit_vector) requires 0 < bs < 64, b < 64;
}

/// Moving the words as `shift_word` does and setting bit 0 moves every bit
/// of the window by `ws * 64 + bs`.
proof fn lemma_shift_window(old: Seq<u64>, fresh: Seq<u64>, ws: int, bs: u64, s: int)
    requires
        old.len() == 32, fresh.len() == 32, 0 <= ws < 32, bs < 64, s == ws * 64 + bs, s > 0,
        fresh[0] == shift_word(old, ws, bs, 0) | 1,
        forall|m: int| 1 <= m < 32 ==> #[trigger] fresh[m] == shift_word(old, ws, bs, m),
    ensures shifted(old, fresh, s),
{
    assert forall|k: int| 0 <= k < REPLAY_WINDOW_BITS implies
        #[trigger] wbit(fresh, k) == (k == 0 || (k >= s && wbit(old, k - s))) by {
        let m = k / 64;
        let b = (k % 64) as u64;
        let t1: u64 = if m >= ws { old[m - ws] << bs } else { 0u64 };
        let t2: u64 = if bs != 0 && m >= ws + 1 { old[m - ws - 1] >> ((64 - bs) as u64) } else { 0u64 };
        lemma_bit64_and_or(t1, t2, b);
        lemma_bit64_one_zero(b);
        if m == 0 {
            lemma_bit64_and_or(t1 | t2, 1, b);
        }
        if m >= ws {
            lemma_shl_bit(old[m - ws], bs, b);
            if b >= bs {
                assert(k - s == (m - ws) * 64 + (b - bs));
                assert((k - s) / 64 == m - ws);
                assert((k - s) % 64 == b - bs);
            }
        }
        if bs != 0 && m >= ws + 1 {
            lemma_shr_bit(old[m - ws - 1], bs, b);
            if b < bs {
                assert(k - s == (m - ws - 1) * 64 + (b + 64 - bs));
                assert((k - s) / 64 == m - ws - 1);
                assert((k - s) % 64 == b + 64 - bs);
            }
        }
        if k >= s && b >= bs {
            assert(m >= ws);
        }
        if k >= s && b < bs {
            assert(m >= ws + 1);
            assert(bs != 0);
        }
        if k == 0 {
            assert(m == 0 && b == 0);
        }
    }
}

/// Once a counter has been accepted it is refused for good: accepting any
/// other counter `d` keeps it recorded or moves it out of the window (too
/// old), and `check_and_mark` refuses exactly the counters that are recorded
/// or too old. The window's top never goes down.
pub proof fn law_replay_rejected(w0: ReplayWindow, d: u64, w1: ReplayWindow, c: u64)
    requires window_accepts(w0, d, w1), w0.is_marked(c) || w0.too_old(c),
    ensures w1.is_marked(c) || w1.too_old(c), w1.top() >= w0.top(),
{
    assert(w0.started());
    if d > w0.top() {
        assert(w1.is_marked(c) <==> (c == d || (w0.is_marked(c) && d - c < REPLAY_WINDOW_BITS)));
    } else {
        assert(w1.is_marked(c) <==> (c == d || w0.is_marked(c)));
    }
}


/// `w` is the window of a session that has accepted exactly the counters in
/// `accepted`: it has started once something was accepted, its top is the
/// highest accepted counter, and it records the accepted counters that are
/// within `REPLAY_WINDOW_BITS` of the top.
pub open spec fn window_models(w: ReplayWindow, accepted: Set<u64>) -> bool {
    &&& (accepted == Set::<u64>::empty() <==> !w.started())
    &&& w.started() ==> accepted.contains(w.top()) && forall|a: u64| #[trigger] accepted.contains(a) ==> a <= w.top()
    &&& forall|c: u64| #[trigger] w.is_marked(c)
        <==> (w.started() && accepted.contains(c) && w.top() - c < REPLAY_WINDOW_BITS)
}

/// A new window (nothing received, nothing recorded) has accepted nothing.
pub proof fn law_replay_window_new(w: ReplayWindow)
    requires !w.started(), forall|d: u64| !w.is_marked(d),
    ensures window_models(w, Set::<u64>::empty()),
{
}

/// The window over any sequence of calls: `check_and_mark(c)` on a window that has accepted the set `A`
/// refuses `c` exactly when something was accepted and `c` is either in `A`
/// or at least `REPLAY_WINDOW_BITS` below the highest accepted counter; and
/// after accepting `c` the window models `A` with `c` added.
pub proof fn law_replay_window(w0: ReplayWindow, accepted: Set<u64>, c: u64, w1: ReplayWindow)
    requires window_models(w0, accepted),
    ensures
        (w0.is_marked(c) || w0.too_old(c)) <==> !(accepted == Set::<u64>::empty()
            || (!accepted.contains(c) && (c > w0.top() || w0.top() - c < REPLAY_WINDOW_BITS))),
        window_accepts(w0, c, w1) && !(w0.is_marked(c) || w0.too_old(c))
            ==> window_models(w1, accepted.insert(c)),
{
    if w0.started() {
        assert(accepted.contains(w0.top()));
        assert(accepted != Set::<u64>::empty());
    } else {
        assert(accepted =~= Set::<u64>::empty());
    }
    if window_accepts(w0, c, w1) && !(w0.is_marked(c) || w0.too_old(c)) {
        let a1 = accepted.insert(c);
        assert(a1.contains(c));
        assert(a1 != Set::<u64>::empty());
        if !w0.started() {
            assert(accepted =~= Set::<u64>::empty());
            assert forall|d: u64| #[trigger] w1.is_marked(d)
                <==> (w1.started() && a1.contains(d) && w1.top() - d < REPLAY_WINDOW_BITS) by {
                if a1.contains(d) { assert(d == c); }
            }
        } else if c > w0.top() {
            assert forall|d: u64| #[trigger] w1.is_marked(d)
                <==> (w1.started() && a1.contains(d) && w1.top() - d < REPLAY_WINDOW_BITS) by {
                if a1.contains(d) && d != c { assert(accepted.contains(d)); assert(d <= w0.top()); }
                if w0.is_marked(d) { assert(accepted.contains(d)); }
            }
        } else {
            assert forall|d: u64| #[trigger] w1.is_marked(d)
                <==> (w1.started() && a1.contains(d) && w1.top() - d < REPLAY_WINDOW_BITS) by {
                if w0.is_marked(d) { assert(accepted.contains(d)); }
            }
        }
    }
}

// --- KDF and hash helpers ------------------------------------------------------

/// The Noise protocol name.
pub open spec fn construction() -> Seq<u8> {
    "Noise_IKpsk2_25519_ChaChaPoly_BLAKE2s".spec_bytes()
}

/// The WireGuard identifier.
pub open spec fn identifier() -> Seq<u8> {
    "WireGuard v1 zx2c4 Jason@zx2c4.com".spec_bytes()
}

/// The label of the mac1 key.
pub open spec fn label_mac1() -> Seq<u8> {
    "mac1----".spec_bytes()
}

/// Twelve zero bytes: the nonce of handshake encryption.
pub open spec fn zero_nonce() -> Seq<u8> {
    Seq::new(12, |i: int| 0u8)
}

/// `n` zero bytes.
pub open spec fn zeros(n: nat) -> Seq<u8> {
    Seq::new(n, |i: int| 0u8)
}

/// Keyed BLAKE2s.
pub open spec fn mac_spec(key: Seq<u8>, input: Seq<u8>) -> Seq<u8> {
    keyed_blake2s_spec(key, input)
}

/// KDF with one output.
pub open spec fn kdf1_spec(ck: Seq<u8>, input: Seq<u8>) -> Seq<u8> {
    mac_spec(mac_spec(ck, input), seq![1u8])
}

/// KDF with two outputs.
pub open spec fn kdf2_spec(ck: Seq<u8>, input: Seq<u8>) -> (Seq<u8>, Seq<u8>) {
    let t1 = mac_spec(ck, input);
    let t2 = mac_spec(t1, seq![1u8]);
    (t2, mac_spec(t1, t2 + seq![2u8]))
}

/// KDF with three outputs.
pub open spec fn kdf3_spec(ck: Seq<u8>, input: Seq<u8>) -> (Seq<u8>, Seq<u8>, Seq<u8>) {
    let t1 = mac_spec(ck, input);
    let t2 = mac_spec(t1, seq![1u8]);
    let t3 = mac_spec(t1, t2 + seq![2u8]);
    (t2, t3, mac_spec(t1, t3 + seq![3u8]))
}

/// Hash of `h` followed by `data`.
pub open spec fn mix_hash_spec(h: Seq<u8>, data: Seq<u8>) -> Seq<u8> {
    blake2s_256_spec(h + data)
}

/// Initial chaining key.
pub open spec fn initial_ck_spec() -> Seq<u8> {
    blake2s_256_spec(construction())
}

/// Initial handshake hash.
pub open spec fn initial_h_spec() -> Seq<u8> {
    mix_hash_spec(initial_ck_spec(), identifier())
}

/// Key of mac1 for a recipient: the first 16 bytes of HASH(label || key).
pub open spec fn mac1_key_spec(recipient: Seq<u8>) -> Seq<u8> {
    blake2s_256_spec(label_mac1() + recipient).subrange(0, 16)
}

/// mac1 of a message prefix: first 16 bytes of keyed BLAKE2s with the key
/// zero-padded to 32 bytes.
pub open spec fn mac1_spec(key16: Seq<u8>, prefix: Seq<u8>) -> Seq<u8> {
    keyed_blake2s_spec(key16 + zeros(16), prefix).subrange(0, 16)
}

/// TAI64N label of `unix_secs` (nanoseconds zero).
pub open spec fn tai64n_spec(unix_secs: u64) -> Seq<u8> {
    be64((TAI64N_BASE + unix_secs) as u64) + be32(0)
}

/// Transport nonce of `counter`: four zero bytes, then the counter little-endian.
pub open spec fn wg_nonce_spec(counter: u64) -> Seq<u8> {
    zeros(4) + le64(counter)
}

/// The plaintext that `sealed` is the handshake encryption of under `key`
/// and `aad`, if there is one.
pub open spec fn dec_spec(key: Seq<u8>, aad: Seq<u8>, sealed: Seq<u8>) -> Option<Seq<u8>> {
    if exists|p: Seq<u8>| #[trigger] chacha_seal(key, zero_nonce(), aad, p) == sealed && p.len() / 64 < 0xFFFF_FFFF {
        Some(choose|p: Seq<u8>| #[trigger] chacha_seal(key, zero_nonce(), aad, p) == sealed && p.len() / 64 < 0xFFFF_FFFF)
    } else {
        None
    }
}

fn mac(key: &[u8; 32], input: &[u8]) -> (r: [u8; 32])
    ensures r@ == mac_spec(key@, input@),
{
    keyed_blake2s_256(key, input)
}

fn kdf1(ck: &[u8; 32], input: &[u8]) -> (r: [u8; 32])
    ensures r@ == kdf1_spec(ck@, input@),
{
    let t1 = mac(ck, input);
    let one = [1u8];
    assert(one@ =~= seq![1u8]);
    mac(&t1, one.as_slice())
}

fn append2(t: &[u8; 32], b: u8) -> (r: [u8; 33])
    ensures r@ == t@ + seq![b],
{
    let mut out = [0u8; 33];
    let mut i: usize = 0;
    while i < 32
        invariant i <= 32, out@.len() == 33, forall|j: int| 0 <= j < i ==> out@[j] == t@[j],
        decreases 32 - i,
    {
        out[i] = t[i];
        i += 1;
    }
    out[32] = b;
    assert(out@ =~= t@ + seq![b]);
    out
}

fn kdf2(ck: &[u8; 32], input: &[u8]) -> (r: ([u8; 32], [u8; 32]))
    ensures (r.0@, r.1@) == kdf2_spec(ck@, input@),
{
    let t1 = mac(ck, input);
    let one = [1u8];
    assert(one@ =~= seq![1u8]);
    let t2 = mac(&t1, one.as_slice());
    let t3in = append2(&t2, 2);
    let t3 = mac(&t1, t3in.as_slice());
    (t2, t3)
}

fn kdf3(ck: &[u8; 32], input: &[u8]) -> (r: ([u8; 32], [u8; 32], [u8; 32]))
    ensures (r.0@, r.1@, r.2@) == kdf3_spec(ck@, input@),
{
    let t1 = mac(ck, input);
    let one = [1u8];
    assert(one@ =~= seq![1u8]);
    let t2 = mac(&t1, one.as_slice());
    let t3in = append2(&t2, 2);
    let t3 = mac(&t1, t3in.as_slice());
    let t4in = append2(&t3, 3);
    let t4 = mac(&t1, t4in.as_slice());
    (t2, t3, t4)
}

fn mix_hash(h: &[u8; 32], data: &[u8]) -> (r: [u8; 32])
    ensures r@ == mix_hash_spec(h@, data@),
{
    let mut v: Vec<u8> = Vec::new();
    push_bytes(&mut v, h.as_slice());
    push_bytes(&mut v, data);
    blake2s_256(v.as_slice())
}

fn initial_ck() -> (r: [u8; 32])
    ensures r@ == initial_ck_spec(),
{
    blake2s_256("Noise_IKpsk2_25519_ChaChaPoly_BLAKE2s".as_bytes())
}

fn initial_h(ck: &[u8; 32]) -> (r: [u8; 32])
    ensures r@ == mix_hash_spec(ck@, identifier()),
{
    mix_hash(ck, "WireGuard v1 zx2c4 Jason@zx2c4.com".as_bytes())
}

fn mac1_key(recipient_static_pub: &[u8; 32]) -> (r: [u8; 16])
    ensures r@ == mac1_key_spec(recipient_static_pub@),
{
    let mut v: Vec<u8> = Vec::new();
    push_bytes(&mut v, "mac1----".as_bytes());
    push_bytes(&mut v, recipient_static_pub.as_slice());
    let h = blake2s_256(v.as_slice());
    to_array::<16>(h.as_slice(), 0)
}

fn compute_mac1(key16: &[u8; 16], msg_prefix: &[u8]) -> (r: [u8; 16])
    ensures r@ == mac1_spec(key16@, msg_prefix@),
{
    let mut key32 = [0u8; 32];
    let mut i: usize = 0;
    while i < 16
        invariant i <= 16, key32@.len() == 32,
            forall|j: int| 0 <= j < i ==> key32@[j] == key16@[j],
            forall|j: int| 16 <= j < 32 ==> key32@[j] == 0,
        decreases 16 - i,
    {
        key32[i] = key16[i];
        i += 1;
    }
    assert(key32@ =~= key16@ + zeros(16));
    let m = keyed_blake2s_256(&key32, msg_prefix);
    to_array::<16>(m.as_slice(), 0)
}

fn zero_nonce_bytes() -> (r: [u8; 12])
    ensures r@ == zero_nonce(),
{
    let r = [0u8; 12];
    assert(r@ =~= zero_nonce());
    r
}

/// Handshake encryption: ciphertext and tag of `plaintext` under `key`, the
/// zero nonce and associated data `aad`.
fn aead_seal(key: &[u8; 32], aad: &[u8; 32], plaintext: &[u8]) -> (r: Vec<u8>)
    requires plaintext@.len() <= 64,
    ensures r@ == chacha_seal(key@, zero_nonce(), aad@, plaintext@), r@.len() == plaintext@.len() + 16,
{
    let n = zero_nonce_bytes();
    match seal(key, &n, aad.as_slice(), plaintext) {
        Some(v) => v,
        None => {
            proof {
                assert(false);
            }
            Vec::new()
        }
    }
}

/// Handshake decryption.
fn aead_open(key: &[u8; 32], aad: &[u8; 32], sealed: &[u8]) -> (r: Result<Vec<u8>, WgError>)
    requires sealed@.len() <= 4096,
    ensures
        sealed@.len() >= 16 ==> (r is Ok <==> dec_spec(key@, aad@, sealed@) is Some),
        sealed@.len() < 16 ==> r is Err,
        r matches Ok(p) ==> dec_spec(key@, aad@, sealed@) == Some(p@) && p@.len() + 16 == sealed@.len(),
        r is Err ==> r == Err::<Vec<u8>, WgError>(WgError::DecryptFailed),
{
    if sealed.len() < 16 {
        return Err(WgError::DecryptFailed);
    }
    let n = zero_nonce_bytes();
    let a = aad.as_slice();
    assert(a@ == aad@);
    match open(key, &n, a, sealed) {
        Some(p) => {
            proof {
                let c = choose|q: Seq<u8>| #[trigger] chacha_seal(key@, zero_nonce(), aad@, q) == sealed@
                    && q.len() / 64 < 0xFFFF_FFFF;
                assert(chacha_seal(key@, zero_nonce(), aad@, p@) == sealed@ && p@.len() / 64 < 0xFFFF_FFFF);
            }
            Ok(p)
        }
        None => {
            proof {
                if exists|q: Seq<u8>| #[trigger] chacha_seal(key@, zero_nonce(), aad@, q) == sealed@
                    && q.len() / 64 < 0xFFFF_FFFF {
                    let c = choose|q: Seq<u8>| #[trigger] chacha_seal(key@, zero_nonce(), aad@, q) == sealed@
                        && q.len() / 64 < 0xFFFF_FFFF;
                    assert(chacha_seal(key@, n@, aad@, c) == sealed@);
                }
            }
            Err(WgError::DecryptFailed)
        }
    }
}


// --- peers, sessions, device ---------------------------------------------------

/// A live transport session with one peer.
pub struct Session {
    pub local_index: u32,
    pub remote_index: u32,
    pub send_key: [u8; 32],
    pub recv_key: [u8; 32],
    pub send_counter: u64,
    pub recv_window: ReplayWindow,
}

/// An initiation we sent, awaiting its response.
pub struct PendingInit {
    pub local_index: u32,
    pub e_priv: [u8; 32],
    pub ck: [u8; 32],
    pub h: [u8; 32],
}

/// A configured peer.
pub struct Peer {
    pub public_key: [u8; 32],
    pub psk: [u8; 32],
    /// UDP endpoint (IPv4 address, port), if known.
    pub endpoint: Option<([u8; 4], u16)>,
    /// Tunnel address of the peer.
    pub allowed_ips: [u8; 4],
    pub session: Option<Session>,
    pub pending: Option<PendingInit>,
    /// Newest handshake timestamp accepted from the peer.
    pub last_tai64n: [u8; 12],
}

/// Peer slots per device.
pub const MAX_PEERS: usize = 8;

/// A session just made by a handshake: indices and keys given, nothing sent
/// or received yet.
pub open spec fn fresh_session(s: Session, local: u32, remote: u32, send: Seq<u8>, recv: Seq<u8>) -> bool {
    &&& s.local_index == local && s.remote_index == remote
    &&& s.send_key@ == send && s.recv_key@ == recv
    &&& s.send_counter == 0 && !s.recv_window.started()
}

/// `b` is `a` with only the handshake state (session, pending, timestamp) changed.
pub open spec fn same_config(a: Peer, b: Peer) -> bool {
    a.public_key == b.public_key && a.psk == b.psk && a.endpoint == b.endpoint && a.allowed_ips == b.allowed_ips
}

/// Lexicographic `a <= b` of equal-length byte strings.
pub open spec fn lex_le(a: Seq<u8>, b: Seq<u8>) -> bool
    decreases a.len(),
{
    if a.len() == 0 || b.len() == 0 {
        a.len() <= b.len()
    } else if a[0] != b[0] {
        a[0] < b[0]
    } else {
        lex_le(a.subrange(1, a.len() as int), b.subrange(1, b.len() as int))
    }
}

/// Slot `i` is the first configured peer with public key `key`.
pub open spec fn first_peer_with_key(peers: Seq<Option<Peer>>, key: Seq<u8>, i: int) -> bool {
    &&& 0 <= i < peers.len()
    &&& peers[i] matches Some(p) && p.public_key@ == key
    &&& forall|j: int| 0 <= j < i ==> !(#[trigger] peers[j] matches Some(q) && q.public_key@ == key)
}

/// The peer's live session or pending initiation uses local index `index`.
pub open spec fn owns_index(o: Option<Peer>, index: u32) -> bool {
    o matches Some(p) && ((p.session matches Some(s) && s.local_index == index)
        || (p.pending matches Some(q) && q.local_index == index))
}

/// Slot `i` is the first peer owning local index `index`.
pub open spec fn first_owner(peers: Seq<Option<Peer>>, index: u32, i: int) -> bool {
    0 <= i < peers.len() && owns_index(peers[i], index)
        && forall|j: int| 0 <= j < i ==> !#[trigger] owns_index(peers[j], index)
}

/// The initiation message for `peer_pub`, with the chaining key and hash
/// it leaves: `(message, ck, h)`.
pub open spec fn initiation_spec(our_priv: Seq<u8>, our_pub: Seq<u8>, peer_pub: Seq<u8>, e_priv: Seq<u8>,
    index: u32, unix_secs: u64) -> (Seq<u8>, Seq<u8>, Seq<u8>) {
    let ck0 = initial_ck_spec();
    let h0 = mix_hash_spec(initial_h_spec(), peer_pub);
    let e_pub = x25519_spec(e_priv, basepoint());
    let ck1 = kdf1_spec(ck0, e_pub);
    let h1 = mix_hash_spec(h0, e_pub);
    let (ck2, k1) = kdf2_spec(ck1, x25519_spec(e_priv, peer_pub));
    let static_enc = chacha_seal(k1, zero_nonce(), h1, our_pub);
    let h2 = mix_hash_spec(h1, static_enc);
    let (ck3, k2) = kdf2_spec(ck2, x25519_spec(our_priv, peer_pub));
    let ts_enc = chacha_seal(k2, zero_nonce(), h2, tai64n_spec(unix_secs));
    let h3 = mix_hash_spec(h2, ts_enc);
    let prefix = le32(MSG_HANDSHAKE_INITIATION) + le32(index) + e_pub + static_enc + ts_enc;
    (prefix + mac1_spec(mac1_key_spec(peer_pub), prefix) + zeros(16), ck3, h3)
}

/// mac1 of a received message of length `n` (mac1 at `n - 32`) checks out
/// against our public key.
pub open spec fn mac1_ok(our_pub: Seq<u8>, msg: Seq<u8>, n: int) -> bool {
    msg.subrange(n - 32, n - 16) == mac1_spec(mac1_key_spec(our_pub), msg.subrange(0, n - 32))
}

/// Responder, first half: from a received initiation, the chaining key and
/// key after the ephemeral DH, and the hash after the ephemeral key:
/// `(ck2, k1, h1)`.
pub open spec fn resp_stage1(our_priv: Seq<u8>, our_pub: Seq<u8>, msg: Seq<u8>) -> (Seq<u8>, Seq<u8>, Seq<u8>) {
    let e_them = msg.subrange(8, 40);
    let ck1 = kdf1_spec(initial_ck_spec(), e_them);
    let h1 = mix_hash_spec(mix_hash_spec(initial_h_spec(), our_pub), e_them);
    let (ck2, k1) = kdf2_spec(ck1, x25519_spec(our_priv, e_them));
    (ck2, k1, h1)
}

/// Responder, second half: after learning the initiator's static key,
/// `(ck3, k2, h2)`.
pub open spec fn resp_stage2(our_priv: Seq<u8>, our_pub: Seq<u8>, msg: Seq<u8>, their_static: Seq<u8>)
    -> (Seq<u8>, Seq<u8>, Seq<u8>) {
    let (ck2, k1, h1) = resp_stage1(our_priv, our_pub, msg);
    let h2 = mix_hash_spec(h1, msg.subrange(40, 88));
    let (ck3, k2) = kdf2_spec(ck2, x25519_spec(our_priv, their_static));
    (ck3, k2, h2)
}

/// The response to an accepted initiation and the session keys it yields:
/// `(message, send key, receive key)`.
pub open spec fn response_spec(our_priv: Seq<u8>, our_pub: Seq<u8>, msg: Seq<u8>, their_static: Seq<u8>,
    psk: Seq<u8>, e_priv: Seq<u8>, our_index: u32) -> (Seq<u8>, Seq<u8>, Seq<u8>) {
    let (ck3, k2, h2) = resp_stage2(our_priv, our_pub, msg, their_static);
    let h3 = mix_hash_spec(h2, msg.subrange(88, 116));
    let e_them = msg.subrange(8, 40);
    let e_pub = x25519_spec(e_priv, basepoint());
    let ck4 = kdf1_spec(ck3, e_pub);
    let h4 = mix_hash_spec(h3, e_pub);
    let (ck5, _a) = kdf2_spec(ck4, x25519_spec(e_priv, e_them));
    let (ck6, _b) = kdf2_spec(ck5, x25519_spec(e_priv, their_static));
    let (ck7, tau, k3) = kdf3_spec(ck6, psk);
    let h5 = mix_hash_spec(h4, tau);
    let empty_enc = chacha_seal(k3, zero_nonce(), h5, Seq::empty());
    let prefix = le32(MSG_HANDSHAKE_RESPONSE) + le32(our_index) + msg.subrange(4, 8) + e_pub + empty_enc;
    let (t1, t2) = kdf2_spec(ck7, Seq::empty());
    (prefix + mac1_spec(mac1_key_spec(their_static), prefix) + zeros(16), t2, t1)
}

/// Initiator, on a response: the key of the empty payload and its
/// associated data, and the session keys `(k, h, send, receive)`.
pub open spec fn confirm_spec(our_priv: Seq<u8>, pending_e: Seq<u8>, pending_ck: Seq<u8>, pending_h: Seq<u8>,
    psk: Seq<u8>, msg: Seq<u8>) -> (Seq<u8>, Seq<u8>, Seq<u8>, Seq<u8>) {
    let e_them = msg.subrange(12, 44);
    let ck1 = kdf1_spec(pending_ck, e_them);
    let h1 = mix_hash_spec(pending_h, e_them);
    let (ck2, _a) = kdf2_spec(ck1, x25519_spec(pending_e, e_them));
    let (ck3, _b) = kdf2_spec(ck2, x25519_spec(our_priv, e_them));
    let (ck4, tau, k) = kdf3_spec(ck3, psk);
    let h2 = mix_hash_spec(h1, tau);
    let (t1, t2) = kdf2_spec(ck4, Seq::empty());
    (k, h2, t1, t2)
}

/// `new` is `old` after `check_and_mark` accepted counter `c`.
pub open spec fn window_accepts(old: ReplayWindow, c: u64, new: ReplayWindow) -> bool {
    &&& new.is_marked(c) && new.started()
    &&& !old.started() ==> new.top() == c && forall|d: u64| new.is_marked(d) <==> d == c
    &&& old.started() && c > old.top() ==> new.top() == c
        && forall|d: u64| #[trigger] new.is_marked(d) <==> (d == c || (old.is_marked(d) && c - d < REPLAY_WINDOW_BITS))
    &&& old.started() && c <= old.top() ==> new.top() == old.top()
        && forall|d: u64| #[trigger] new.is_marked(d) <==> (d == c || old.is_marked(d))
}

/// Whether `a` and `b` are equal, compared without early exit.
fn ct_eq(a: &[u8], b: &[u8]) -> (r: bool)
    ensures r == (a@ == b@),
{
    if a.len() != b.len() {
        return false;
    }
    let mut diff: u8 = 0;
    let mut i: usize = 0;
    while i < a.len()
        invariant
            i <= a@.len(), a@.len() == b@.len(),
            (diff == 0) == (forall|j: int| 0 <= j < i ==> a@[j] == b@[j]),
        decreases a@.len() - i,
    {
        let x = a[i];
        let y = b[i];
        let d = diff;
        assert((d | (x ^ y)) == 0 <==> (d == 0 && x == y)) by (bit_vector);
        diff = diff | (x ^ y);
        i += 1;
    }
    assert(diff == 0 ==> a@ =~= b@);
    diff == 0
}

/// Lexicographic `a <= b`.
fn lex_le_bytes(a: &[u8], b: &[u8]) -> (r: bool)
    ensures r == lex_le(a@, b@),
    decreases a@.len(),
{
    if a.len() == 0 || b.len() == 0 {
        return a.len() <= b.len();
    }
    if a[0] != b[0] {
        return a[0] < b[0];
    }
    lex_le_bytes(slice_subrange(a, 1, a.len()), slice_subrange(b, 1, b.len()))
}

/// Copy `v` into an array of the same length.
fn fill<const N: usize>(out: &mut [u8; N], v: &[u8])
    requires v@.len() == N,
    ensures final(out)@ == v@,
{
    let mut i: usize = 0;
    while i < N
        invariant i <= N, v@.len() == N, out@.len() == N, forall|j: int| 0 <= j < i ==> out@[j] == v@[j],
        decreases N - i,
    {
        out[i] = v[i];
        i += 1;
    }
    assert(out@ =~= v@);
}

fn tai64n_now(unix_secs: u64) -> (r: [u8; 12])
    requires unix_secs <= u64::MAX - TAI64N_BASE,
    ensures r@ == tai64n_spec(unix_secs),
{
    let hi = crate::bytes::u64_to_be(TAI64N_BASE + unix_secs);
    let r = [hi[0], hi[1], hi[2], hi[3], hi[4], hi[5], hi[6], hi[7], 0, 0, 0, 0];
    assert(be32(0) =~= seq![0u8, 0u8, 0u8, 0u8]) by {
        assert((0u32 >> 24u32) as u8 == 0 && (0u32 >> 16u32) as u8 == 0 && (0u32 >> 8u32) as u8 == 0 && 0u32 as u8 == 0)
            by (bit_vector);
    }
    assert(r@ =~= tai64n_spec(unix_secs));
    r
}

fn wg_nonce(counter: u64) -> (r: [u8; 12])
    ensures r@ == wg_nonce_spec(counter),
{
    let c = u64_to_le(counter);
    let r = [0u8, 0, 0, 0, c[0], c[1], c[2], c[3], c[4], c[5], c[6], c[7]];
    assert(r@ =~= wg_nonce_spec(counter));
    r
}

/// One WireGuard device: a static key pair and a table of peer slots.
pub struct Device {
    private_key: [u8; 32],
    public_key: [u8; 32],
    pub peers: Vec<Option<Peer>>,
}

/// What handling a message did.
pub enum WgEvent {
    /// Send the response now in `resp_out` to the peer.
    SendResponse { peer_idx: usize },
    /// A handshake we started is complete.
    Established { peer_idx: usize, initiator: bool },
    /// A transport message was decrypted: `len` bytes in `plain_out`.
    Transport { peer_idx: usize, len: usize },
    /// A cookie reply, not handled.
    Ignored,
}

impl View for Device {
    type V = Seq<Option<Peer>>;

    closed spec fn view(&self) -> Seq<Option<Peer>> {
        self.peers@
    }
}

impl Device {
    /// The device's private key.
    pub closed spec fn priv_key(&self) -> Seq<u8> {
        self.private_key@
    }

    /// The device's public key.
    pub closed spec fn pub_key(&self) -> Seq<u8> {
        self.public_key@
    }

    /// One slot per peer.
    pub open spec fn wf(&self) -> bool {
        self@.len() == MAX_PEERS
    }

    /// A device with this private key and no peers.
    pub fn new(private_key: [u8; 32]) -> (r: Self)
        ensures
            r.wf(), r.priv_key() == private_key@, r.pub_key() == x25519_spec(private_key@, basepoint()),
            forall|i: int| 0 <= i < MAX_PEERS ==> #[trigger] r@[i] is None,
    {
        let public_key = x25519_base(&private_key);
        let mut peers: Vec<Option<Peer>> = Vec::new();
        let mut i: usize = 0;
        while i < MAX_PEERS
            invariant i <= MAX_PEERS, peers@.len() == i, forall|j: int| 0 <= j < i ==> #[trigger] peers@[j] is None,
            decreases MAX_PEERS - i,
        {
            peers.push(None);
            i += 1;
        }
        Device { private_key, public_key, peers }
    }

    /// The device's public key.
    pub fn public_key(&self) -> (r: [u8; 32])
        ensures r@ == self.pub_key(),
    {
        self.public_key
    }

    /// Configure a peer in the first free slot (pre-shared key zero if none).
    pub fn add_peer(&mut self, public_key: [u8; 32], psk: Option<[u8; 32]>, endpoint: Option<([u8; 4], u16)>,
        allowed_ips: [u8; 4]) -> (r: Result<usize, WgError>)
        requires old(self).wf(),
        ensures
            final(self).wf(), final(self).priv_key() == old(self).priv_key(), final(self).pub_key() == old(self).pub_key(),
            r is Err <==> forall|i: int| 0 <= i < MAX_PEERS ==> #[trigger] old(self)@[i] is Some,
            r is Err ==> r == Err::<usize, WgError>(WgError::NoRoom) && final(self)@ == old(self)@,
            r matches Ok(i) ==> (i < MAX_PEERS && old(self)@[i as int] is None
                && (forall|j: int| 0 <= j < i ==> #[trigger] old(self)@[j] is Some)
                && final(self)@ == old(self)@.update(i as int, final(self)@[i as int])
                && (final(self)@[i as int] matches Some(p)
                && p.public_key == public_key && p.endpoint == endpoint && p.allowed_ips == allowed_ips
                && p.psk@ == (match psk { Some(k) => k@, None => zeros(32) })
                && p.session is None && p.pending is None && p.last_tai64n@ == zeros(12))),
            r is Ok ==> count_some(final(self)@) == count_some(old(self)@) + 1,
            r is Err ==> count_some(old(self)@) == MAX_PEERS,
    {
        let mut i: usize = 0;
        while i < MAX_PEERS
            invariant i <= MAX_PEERS, self.wf(), *self == *old(self),
                forall|j: int| 0 <= j < i ==> #[trigger] self@[j] is Some,
            decreases MAX_PEERS - i,
        {
            if self.peers[i].is_none() {
                let k = match psk {
                    Some(k) => k,
                    None => [0u8; 32],
                };
                let ts = [0u8; 12];
                assert(ts@ =~= zeros(12));
                assert(psk is None ==> k@ =~= zeros(32));
                self.peers.set(i, Some(Peer {
                    public_key,
                    psk: k,
                    endpoint,
                    allowed_ips,
                    session: None,
                    pending: None,
                    last_tai64n: ts,
                }));
                proof {
                    crate::slots::lemma_count_some_update(old(self)@, i as int, self@[i as int]);
                    assert(self@ =~= old(self)@.update(i as int, self@[i as int]));
                }
                return Ok(i);
            }
            i += 1;
        }
        proof { crate::slots::lemma_count_full(self@); }
        Err(WgError::NoRoom)
    }

    /// Number of configured peers.
    pub fn peer_count(&self) -> (r: usize)
        requires self.wf(),
        ensures r == count_some(self@),
    {
        let mut n: usize = 0;
        let mut i: usize = 0;
        while i < MAX_PEERS
            invariant i <= MAX_PEERS, self.wf(), n == count_some(self@.subrange(0, i as int)), n <= i,
            decreases MAX_PEERS - i,
        {
            proof {
                assert(self@.subrange(0, i as int + 1).drop_last() =~= self@.subrange(0, i as int));
            }
            if self.peers[i].is_some() {
                n += 1;
            }
            i += 1;
        }
        assert(self@.subrange(0, MAX_PEERS as int) =~= self@);
        n
    }

    /// Whether the peer in slot `peer_idx` has a live session.
    pub fn is_established(&self, peer_idx: usize) -> (r: bool)
        requires self.wf(),
        ensures r == (peer_idx < MAX_PEERS && (self@[peer_idx as int] matches Some(p) && p.session is Some)),
    {
        if peer_idx >= MAX_PEERS {
            return false;
        }
        match &self.peers[peer_idx] {
            Some(p) => p.session.is_some(),
            None => false,
        }
    }

    /// The first peer whose session or pending initiation uses `index`.
    fn lookup_index(&self, index: u32) -> (r: Option<usize>)
        requires self.wf(),
        ensures
            r is None <==> forall|i: int| 0 <= i < MAX_PEERS ==> !#[trigger] owns_index(self@[i], index),
            r matches Some(i) ==> first_owner(self@, index, i as int),
    {
        let mut i: usize = 0;
        while i < MAX_PEERS
            invariant i <= MAX_PEERS, self.wf(),
                forall|j: int| 0 <= j < i ==> !#[trigger] owns_index(self@[j], index),
            decreases MAX_PEERS - i,
        {
            let hit = match &self.peers[i] {
                Some(p) => {
                    let a = match &p.session {
                        Some(s) => s.local_index == index,
                        None => false,
                    };
                    let b = match &p.pending {
                        Some(q) => q.local_index == index,
                        None => false,
                    };
                    a || b
                }
                None => false,
            };
            if hit {
                assert(owns_index(self@[i as int], index));
                return Some(i);
            }
            i += 1;
        }
        None
    }

    /// The first peer with public key `key`.
    fn find_peer(&self, key: &[u8; 32]) -> (r: Option<usize>)
        requires self.wf(),
        ensures
            r is None <==> forall|i: int| 0 <= i < MAX_PEERS
                ==> !(#[trigger] self@[i] matches Some(p) && p.public_key@ == key@),
            r matches Some(i) ==> first_peer_with_key(self@, key@, i as int),
    {
        let mut i: usize = 0;
        while i < MAX_PEERS
            invariant i <= MAX_PEERS, self.wf(),
                forall|j: int| 0 <= j < i ==> !(#[trigger] self@[j] matches Some(q) && q.public_key@ == key@),
            decreases MAX_PEERS - i,
        {
            let hit = match &self.peers[i] {
                Some(p) => ct_eq(p.public_key.as_slice(), key.as_slice()),
                None => false,
            };
            if hit {
                return Some(i);
            }
            i += 1;
        }
        None
    }
}


/// `d1` has the keys of `d0`, peers in the same slots, and each peer's
/// configuration unchanged: only handshake and session state may differ.
pub open spec fn peers_kept(d0: Device, d1: Device) -> bool {
    &&& d1.priv_key() == d0.priv_key() && d1.pub_key() == d0.pub_key()
    &&& d1@.len() == d0@.len()
    &&& forall|k: int| 0 <= k < d0@.len() ==> ((#[trigger] d0@[k] is Some) <==> d1@[k] is Some)
    &&& forall|k: int| 0 <= k < d0@.len() ==> (#[trigger] d0@[k] matches Some(p) ==> same_config(p, d1@[k]->0))
}

/// Two slot tables occupied in the same places hold the same number of peers.
pub proof fn lemma_count_same_slots(s: Seq<Option<Peer>>, t: Seq<Option<Peer>>)
    requires s.len() == t.len(), forall|k: int| 0 <= k < s.len() ==> ((#[trigger] s[k] is Some) <==> t[k] is Some),
    ensures count_some(s) == count_some(t),
    decreases s.len(),
{
    if s.len() > 0 {
        assert forall|k: int| 0 <= k < s.drop_last().len() implies
            ((#[trigger] s.drop_last()[k] is Some) <==> t.drop_last()[k] is Some) by {
            assert(s[k] is Some <==> t[k] is Some);
        }
        lemma_count_same_slots(s.drop_last(), t.drop_last());
        assert(s.last() is Some <==> t[t.len() - 1] is Some);
    }
}

/// Every peer of `d0` with a live session still has one in `d1`.
pub open spec fn sessions_kept(d0: Device, d1: Device) -> bool {
    forall|k: int| 0 <= k < d0@.len() && (#[trigger] d0@[k] matches Some(p) && p.session is Some)
        ==> (d1@[k] matches Some(q) && q.session is Some)
}

/// Handshake and transport messages keep a device's keys, its number of
/// peers and each peer's configuration.
pub proof fn law_messages_keep_peers(d0: Device, d1: Device)
    requires d0.wf(), peers_kept(d0, d1),
    ensures d1.pub_key() == d0.pub_key(), count_some(d1@) == count_some(d0@),
{
    lemma_count_same_slots(d0@, d1@);
}

/// The peer slot an event names, or its error (for the handshake messages).
pub open spec fn event_peer(r: Result<WgEvent, WgError>) -> Result<usize, WgError> {
    match r {
        Ok(WgEvent::SendResponse { peer_idx }) => Ok(peer_idx),
        Ok(WgEvent::Established { peer_idx, .. }) => Ok(peer_idx),
        Ok(WgEvent::Transport { peer_idx, .. }) => Ok(peer_idx),
        Ok(WgEvent::Ignored) => Err(WgError::BadMessageType),
        Err(e) => Err(e),
    }
}

/// The peer slot and length a transport event names, or its error.
pub open spec fn event_transport(r: Result<WgEvent, WgError>) -> Result<(usize, usize), WgError> {
    match r {
        Ok(WgEvent::Transport { peer_idx, len }) => Ok((peer_idx, len)),
        Ok(_) => Err(WgError::BadMessageType),
        Err(e) => Err(e),
    }
}

/// What `create_initiation` does: from device `d0` and message buffer `o0`
/// to `d1`, `o1` and result `r`.
pub open spec fn initiation_created(d0: Device, peer_idx: usize, e_priv: [u8; 32], index_bytes: [u8; 4],
    unix_secs: u64, o0: Seq<u8>, d1: Device, o1: Seq<u8>, r: Result<(), WgError>) -> bool {
    &&& d1.wf()
    &&& d1.priv_key() == d0.priv_key()
    &&& d1.pub_key() == d0.pub_key()
    &&& r is Ok <==> (peer_idx < MAX_PEERS && d0@[peer_idx as int] is Some)
    &&& r is Err ==> r == Err::<(), WgError>(WgError::UnknownPeer) && d1@ == d0@
            && o1 == o0
    &&& r is Ok ==> ({
            let p = d0@[peer_idx as int]->0;
            let (m, ck, h) = initiation_spec(d0.priv_key(), d0.pub_key(), p.public_key@, e_priv@,
                from_le32(index_bytes@), unix_secs);
            &&& o1 == m
            &&& d1@ == d0@.update(peer_idx as int, d1@[peer_idx as int])
            &&& d1@[peer_idx as int] matches Some(q)
            &&& same_config(p, q) && q.session == p.session && q.last_tai64n == p.last_tai64n
            &&& q.pending matches Some(pi)
            &&& pi.local_index == from_le32(index_bytes@) && pi.e_priv == e_priv && pi.ck@ == ck && pi.h@ == h
        })
}

/// What `encrypt_transport` does: from device `d0` and output buffer `o0` to
/// `d1`, `o1` and result `r`.
pub open spec fn transport_sent(d0: Device, peer_idx: usize, plaintext: Seq<u8>, o0: Seq<u8>, d1: Device, o1: Seq<u8>,
    r: Result<usize, WgError>) -> bool {
    &&& d1.wf()
    &&& d1.priv_key() == d0.priv_key()
    &&& d1.pub_key() == d0.pub_key()
    &&& o1.len() == o0.len()
    &&& !(peer_idx < MAX_PEERS && d0@[peer_idx as int] is Some)
            ==> r == Err::<usize, WgError>(WgError::UnknownPeer) && d1@ == d0@
    &&& peer_idx < MAX_PEERS ==> (d0@[peer_idx as int] matches Some(p) ==> {
            &&& p.session is None ==> r == Err::<usize, WgError>(WgError::NoSession) && d1@ == d0@
            &&& p.session matches Some(s) ==> {
                &&& o0.len() < TRANSPORT_HEADER_LEN + plaintext.len() + 16
                    ==> r == Err::<usize, WgError>(WgError::BufferTooSmall) && d1@ == d0@
                &&& o0.len() >= TRANSPORT_HEADER_LEN + plaintext.len() + 16 ==> {
                    &&& d1@ == d0@.update(peer_idx as int, d1@[peer_idx as int])
                    &&& d1@[peer_idx as int] matches Some(q)
                    &&& same_config(p, q) && q.pending == p.pending && q.last_tai64n == p.last_tai64n
                    &&& q.session matches Some(s2)
                    &&& s2.local_index == s.local_index && s2.remote_index == s.remote_index
                    &&& s2.send_key == s.send_key && s2.recv_key == s.recv_key && s2.recv_window == s.recv_window
                    &&& s2.send_counter == s.send_counter + 1
                    &&& plaintext.len() / 64 >= 0xFFFF_FFFF ==> r == Err::<usize, WgError>(WgError::BufferTooSmall)
                    &&& plaintext.len() / 64 < 0xFFFF_FFFF ==> r == Ok::<usize, WgError>(
                            (TRANSPORT_HEADER_LEN + plaintext.len() + 16) as usize)
                        && o1.subrange(0, TRANSPORT_HEADER_LEN + plaintext.len() + 16)
                            == transport_spec(s.remote_index, s.send_counter, s.send_key@, plaintext)
                }
            }
        })
}

/// What `consume_initiation` does: from device `d0` and response buffer `o0`
/// to `d1`, `o1` and result `r`.
pub open spec fn initiation_outcome(d0: Device, msg: Seq<u8>, e_priv: [u8; 32], index_bytes: [u8; 4], o0: Seq<u8>,
    d1: Device, o1: Seq<u8>, r: Result<usize, WgError>) -> bool {
    &&& d1.wf()
    &&& d1.priv_key() == d0.priv_key()
    &&& d1.pub_key() == d0.pub_key()
    &&& r is Err ==> d1@ == d0@ && o1 == o0
    &&& msg.len() != INITIATION_LEN ==> r == Err::<usize, WgError>(WgError::BadLength)
    &&& msg.len() == INITIATION_LEN && !mac1_ok(d0.pub_key(), msg, 148)
            ==> r == Err::<usize, WgError>(WgError::BadMac1)
    &&& ({
            let m = msg;
            let sk = d0.priv_key();
            let pk = d0.pub_key();
            let (ck2, k1, h1) = resp_stage1(sk, pk, m);
            let st = dec_spec(k1, h1, m.subrange(40, 88));
            m.len() == INITIATION_LEN && mac1_ok(pk, m, 148) ==> {
                &&& st is None ==> r == Err::<usize, WgError>(WgError::DecryptFailed)
                &&& st matches Some(s) ==> ({
                    let (ck3, k2, h2) = resp_stage2(sk, pk, m, s);
                    let ts = dec_spec(k2, h2, m.subrange(88, 116));
                    &&& ts is None ==> r == Err::<usize, WgError>(WgError::DecryptFailed)
                    &&& ts matches Some(t) ==> {
                        &&& (forall|i: int| 0 <= i < MAX_PEERS
                                ==> !(#[trigger] d0@[i] matches Some(p) && p.public_key@ == s))
                            ==> r == Err::<usize, WgError>(WgError::UnknownPeer)
                        &&& forall|i: int| #[trigger] first_peer_with_key(d0@, s, i) ==> {
                            let p = d0@[i]->0;
                            if lex_le(t, p.last_tai64n@) {
                                r == Err::<usize, WgError>(WgError::StaleTimestamp)
                            } else {
                                let (resp, send, recv) = response_spec(sk, pk, m, s, p.psk@, e_priv@,
                                    from_le32(index_bytes@));
                                &&& r == Ok::<usize, WgError>(i as usize)
                                &&& o1 == resp
                                &&& d1@ == d0@.update(i, d1@[i])
                                &&& d1@[i] matches Some(q)
                                &&& same_config(p, q) && q.pending == p.pending && q.last_tai64n@ == t
                                &&& q.session matches Some(se)
                                &&& fresh_session(se, from_le32(index_bytes@), from_le32(m.subrange(4, 8)), send, recv)
                            }
                        }
                    }
                })
            }
        })
}

/// What `consume_response` does: from device `d0` to `d1` and result `r`.
pub open spec fn response_outcome(d0: Device, msg: Seq<u8>, d1: Device, r: Result<usize, WgError>) -> bool {
    &&& d1.wf()
    &&& d1.priv_key() == d0.priv_key()
    &&& d1.pub_key() == d0.pub_key()
    &&& msg.len() != RESPONSE_LEN ==> r == Err::<usize, WgError>(WgError::BadLength) && d1@ == d0@
    &&& msg.len() == RESPONSE_LEN && !mac1_ok(d0.pub_key(), msg, 92)
            ==> r == Err::<usize, WgError>(WgError::BadMac1) && d1@ == d0@
    &&& ({
            let m = msg;
            let idx = from_le32(m.subrange(8, 12));
            m.len() == RESPONSE_LEN && mac1_ok(d0.pub_key(), m, 92) ==> {
                &&& (forall|i: int| 0 <= i < MAX_PEERS ==> !#[trigger] owns_index(d0@[i], idx))
                    ==> r == Err::<usize, WgError>(WgError::UnknownIndex) && d1@ == d0@
                &&& forall|i: int| #[trigger] first_owner(d0@, idx, i) ==> {
                    let p = d0@[i]->0;
                    &&& d1@ == d0@.update(i, d1@[i])
                    &&& d1@[i] matches Some(q)
                    &&& same_config(p, q) && q.last_tai64n == p.last_tai64n && q.pending is None
                    &&& p.pending is None ==> r == Err::<usize, WgError>(WgError::NoPendingHandshake)
                        && q.session == p.session
                    &&& p.pending matches Some(pi) ==> ({
                        let (k, h, t1, t2) = confirm_spec(d0.priv_key(), pi.e_priv@, pi.ck@, pi.h@, p.psk@, m);
                        &&& dec_spec(k, h, m.subrange(44, 60)) is None
                            ==> r == Err::<usize, WgError>(WgError::DecryptFailed) && q.session == p.session
                        &&& dec_spec(k, h, m.subrange(44, 60)) is Some ==> r == Ok::<usize, WgError>(i as usize)
                            && (q.session matches Some(se) && fresh_session(se, idx, from_le32(m.subrange(4, 8)), t1, t2))
                    })
                }
            }
        })
}

/// What `decrypt_transport` does: from device `d0` and output buffer `o0` to
/// `d1`, `o1` and result `r`.
pub open spec fn transport_outcome(d0: Device, msg: Seq<u8>, o0: Seq<u8>, d1: Device, o1: Seq<u8>,
    r: Result<(usize, usize), WgError>) -> bool {
    &&& d1.wf()
    &&& d1.priv_key() == d0.priv_key()
    &&& d1.pub_key() == d0.pub_key()
    &&& o1.len() == o0.len()
    &&& msg.len() < TRANSPORT_HEADER_LEN + 16 ==> r == Err::<(usize, usize), WgError>(WgError::BadLength)
            && d1@ == d0@
    &&& ({
            let m = msg;
            let recv = from_le32(m.subrange(4, 8));
            let counter = from_le64(m.subrange(8, 16));
            let sealed = m.subrange(16, m.len() as int);
            m.len() >= TRANSPORT_HEADER_LEN + 16 ==> {
                &&& (forall|i: int| 0 <= i < MAX_PEERS ==> !#[trigger] owns_index(d0@[i], recv))
                    ==> r == Err::<(usize, usize), WgError>(WgError::UnknownIndex) && d1@ == d0@
                &&& forall|i: int| #[trigger] first_owner(d0@, recv, i) ==> {
                    let p = d0@[i]->0;
                    &&& p.session is None ==> r == Err::<(usize, usize), WgError>(WgError::NoSession)
                        && d1@ == d0@
                    &&& p.session matches Some(s) ==> {
                        &&& s.local_index != recv ==> r == Err::<(usize, usize), WgError>(WgError::UnknownIndex)
                            && d1@ == d0@
                        &&& s.local_index == recv && (s.recv_window.is_marked(counter) || s.recv_window.too_old(counter))
                            ==> r == Err::<(usize, usize), WgError>(WgError::Replay) && d1@ == d0@
                        &&& s.local_index == recv && !(s.recv_window.is_marked(counter) || s.recv_window.too_old(counter))
                            ==> {
                            &&& d1@ == d0@.update(i, d1@[i])
                            &&& d1@[i] matches Some(q)
                            &&& same_config(p, q) && q.pending == p.pending && q.last_tai64n == p.last_tai64n
                            &&& q.session matches Some(s2)
                            &&& s2.local_index == s.local_index && s2.remote_index == s.remote_index
                            &&& s2.send_key == s.send_key && s2.recv_key == s.recv_key
                            &&& s2.send_counter == s.send_counter
                            &&& window_accepts(s.recv_window, counter, s2.recv_window)
                            &&& r is Ok || r == Err::<(usize, usize), WgError>(WgError::DecryptFailed)
                            &&& r matches Ok((pi, n)) ==> pi == i && n == sealed.len() - 16
                                && chacha_seal(s.recv_key@, wg_nonce_spec(counter), Seq::empty(),
                                    o1.subrange(0, n as int)) == sealed
                            &&& forall|pt: Seq<u8>| #[trigger] chacha_seal(s.recv_key@, wg_nonce_spec(counter),
                                    Seq::empty(), pt) == sealed && pt.len() / 64 < 0xFFFF_FFFF
                                    && o0.len() >= sealed.len() - 16
                                ==> r == Ok::<(usize, usize), WgError>((i as usize, (sealed.len() - 16) as usize))
                                    && o1.subrange(0, pt.len() as int) == pt
                        }
                    }
                }
            }
        })
}

impl Device {
    /// Build a handshake initiation to the peer in slot `peer_idx`, with
    /// ephemeral key `e_priv` and local index `index_bytes` (little-endian),
    /// both random, and the time `unix_secs`; remember it as pending.
    pub fn create_initiation(&mut self, peer_idx: usize, e_priv: [u8; 32], index_bytes: [u8; 4], unix_secs: u64,
        out: &mut [u8; 148]) -> (r: Result<(), WgError>)
        requires old(self).wf(), unix_secs <= u64::MAX - TAI64N_BASE,
        ensures
            initiation_created(*old(self), peer_idx, e_priv, index_bytes, unix_secs, old(out)@, *final(self), final(out)@, r),
    {
        if peer_idx >= MAX_PEERS {
            return Err(WgError::UnknownPeer);
        }
        if self.peers[peer_idx].is_none() {
            return Err(WgError::UnknownPeer);
        }
        let ghost old_peers = self@;
        let mut peer = match self.peers[peer_idx].take() {
            Some(p) => p,
            None => { return Err(WgError::UnknownPeer); }
        };
        let ck0 = initial_ck();
        let h0i = initial_h(&ck0);
        let h0 = mix_hash(&h0i, peer.public_key.as_slice());
        let e_pub = x25519_base(&e_priv);
        let local_index = read_le32(index_bytes.as_slice(), 0);
        let ck1 = kdf1(&ck0, e_pub.as_slice());
        let h1 = mix_hash(&h0, e_pub.as_slice());
        let dh1 = x25519(&e_priv, &peer.public_key);
        let (ck2, k1) = kdf2(&ck1, dh1.as_slice());
        let static_enc = aead_seal(&k1, &h1, self.public_key.as_slice());
        let h2 = mix_hash(&h1, static_enc.as_slice());
        let dh2 = x25519(&self.private_key, &peer.public_key);
        let (ck3, k2) = kdf2(&ck2, dh2.as_slice());
        let ts = tai64n_now(unix_secs);
        let ts_enc = aead_seal(&k2, &h2, ts.as_slice());
        let h3 = mix_hash(&h2, ts_enc.as_slice());
        let mut msg: Vec<u8> = Vec::new();
        push_bytes(&mut msg, u32_to_le(MSG_HANDSHAKE_INITIATION).as_slice());
        push_bytes(&mut msg, u32_to_le(local_index).as_slice());
        push_bytes(&mut msg, e_pub.as_slice());
        push_bytes(&mut msg, static_enc.as_slice());
        push_bytes(&mut msg, ts_enc.as_slice());
        let ghost prefix = msg@;
        let key16 = mac1_key(&peer.public_key);
        let mac1 = compute_mac1(&key16, msg.as_slice());
        push_bytes(&mut msg, mac1.as_slice());
        let z = [0u8; 16];
        push_bytes(&mut msg, z.as_slice());
        proof {
            assert(z@ =~= zeros(16));
            assert(index_bytes@.subrange(0, 4) =~= index_bytes@);
        }
        fill(out, msg.as_slice());
        peer.pending = Some(PendingInit { local_index, e_priv, ck: ck3, h: h3 });
        self.peers.set(peer_idx, Some(peer));
        proof {
            assert(self@ =~= old_peers.update(peer_idx as int, self@[peer_idx as int]));
        }
        Ok(())
    }

    /// Answer a handshake initiation: check its length and mac1, decrypt the
    /// initiator's static key and timestamp, find the peer, refuse a
    /// timestamp not newer than the last one, then write the response (with
    /// ephemeral key `e_priv` and local index `index_bytes`, both random)
    /// and start the session. Returns the peer's slot.
    pub fn consume_initiation(&mut self, msg: &[u8], e_priv: [u8; 32], index_bytes: [u8; 4],
        out: &mut [u8; 92]) -> (r: Result<usize, WgError>)
        requires old(self).wf(),
        ensures
            initiation_outcome(*old(self), msg@, e_priv, index_bytes, old(out)@, *final(self), final(out)@, r),
            sessions_kept(*old(self), *final(self)),
            peers_kept(*old(self), *final(self)),
    {
        if msg.len() != INITIATION_LEN {
            return Err(WgError::BadLength);
        }
        let key16 = mac1_key(&self.public_key);
        let mac1_calc = compute_mac1(&key16, slice_subrange(msg, 0, 116));
        if !ct_eq(mac1_calc.as_slice(), slice_subrange(msg, 116, 132)) {
            return Err(WgError::BadMac1);
        }
        let e_them: [u8; 32] = to_array::<32>(msg, 8);
        let ck0 = initial_ck();
        let h0i = initial_h(&ck0);
        let h0 = mix_hash(&h0i, self.public_key.as_slice());
        let ck1 = kdf1(&ck0, e_them.as_slice());
        let h1 = mix_hash(&h0, e_them.as_slice());
        let dh1 = x25519(&self.private_key, &e_them);
        let (ck2, k1) = kdf2(&ck1, dh1.as_slice());
        let static_v = match aead_open(&k1, &h1, slice_subrange(msg, 40, 88)) {
            Ok(v) => v,
            Err(e) => { return Err(e); }
        };
        let their_static: [u8; 32] = to_array::<32>(static_v.as_slice(), 0);
        assert(their_static@ =~= static_v@);
        let h2 = mix_hash(&h1, slice_subrange(msg, 40, 88));
        let dh2 = x25519(&self.private_key, &their_static);
        let (ck3, k2) = kdf2(&ck2, dh2.as_slice());
        let ts_v = match aead_open(&k2, &h2, slice_subrange(msg, 88, 116)) {
            Ok(v) => v,
            Err(e) => { return Err(e); }
        };
        let their_ts: [u8; 12] = to_array::<12>(ts_v.as_slice(), 0);
        assert(their_ts@ =~= ts_v@);
        let h3 = mix_hash(&h2, slice_subrange(msg, 88, 116));
        let peer_idx = match self.find_peer(&their_static) {
            Some(i) => i,
            None => { return Err(WgError::UnknownPeer); }
        };
        proof {
            assert forall|i: int| #[trigger] first_peer_with_key(self@, their_static@, i) implies i == peer_idx by {
                if i < peer_idx {
                    assert(!(self@[i] matches Some(q) && q.public_key@ == their_static@));
                } else if i > peer_idx {
                    assert(!(self@[peer_idx as int] matches Some(q) && q.public_key@ == their_static@));
                }
            }
        }
        let ghost old_peers = self@;
        let mut peer = match self.peers[peer_idx].take() {
            Some(p) => p,
            None => { return Err(WgError::UnknownPeer); }
        };
        if lex_le_bytes(their_ts.as_slice(), peer.last_tai64n.as_slice()) {
            self.peers.set(peer_idx, Some(peer));
            proof {
                assert(self@ =~= old_peers);
            }
            return Err(WgError::StaleTimestamp);
        }
        peer.last_tai64n = their_ts;
        let e_pub = x25519_base(&e_priv);
        let our_index = read_le32(index_bytes.as_slice(), 0);
        let their_index = read_le32(msg, 4);
        let ck4 = kdf1(&ck3, e_pub.as_slice());
        let h4 = mix_hash(&h3, e_pub.as_slice());
        let dh3 = x25519(&e_priv, &e_them);
        let (ck5, _a) = kdf2(&ck4, dh3.as_slice());
        let dh4 = x25519(&e_priv, &their_static);
        let (ck6, _b) = kdf2(&ck5, dh4.as_slice());
        let (ck7, tau, k3) = kdf3(&ck6, peer.psk.as_slice());
        let h5 = mix_hash(&h4, tau.as_slice());
        let empty: [u8; 0] = [];
        let empty_enc = aead_seal(&k3, &h5, empty.as_slice());
        let mut resp: Vec<u8> = Vec::new();
        push_bytes(&mut resp, u32_to_le(MSG_HANDSHAKE_RESPONSE).as_slice());
        push_bytes(&mut resp, u32_to_le(our_index).as_slice());
        push_bytes(&mut resp, slice_subrange(msg, 4, 8));
        push_bytes(&mut resp, e_pub.as_slice());
        push_bytes(&mut resp, empty_enc.as_slice());
        let key_them = mac1_key(&their_static);
        let mac1 = compute_mac1(&key_them, resp.as_slice());
        push_bytes(&mut resp, mac1.as_slice());
        let z = [0u8; 16];
        push_bytes(&mut resp, z.as_slice());
        let (t1, t2) = kdf2(&ck7, empty.as_slice());
        proof {
            assert(z@ =~= zeros(16));
            assert(empty@ =~= Seq::<u8>::empty());
            assert(index_bytes@.subrange(0, 4) =~= index_bytes@);
            assert(e_them@ =~= msg@.subrange(8, 40));
        }
        fill(out, resp.as_slice());
        peer.session = Some(Session {
            local_index: our_index,
            remote_index: their_index,
            send_key: t2,
            recv_key: t1,
            send_counter: 0,
            recv_window: ReplayWindow::new(),
        });
        self.peers.set(peer_idx, Some(peer));
        proof {
            assert(self@ =~= old_peers.update(peer_idx as int, self@[peer_idx as int]));
        }
        Ok(peer_idx)
    }
}


/// The bytes of a transport message to receiver `remote` with `counter`:
/// header, then the encryption of `plaintext` under `key`.
pub open spec fn transport_spec(remote: u32, counter: u64, key: Seq<u8>, plaintext: Seq<u8>) -> Seq<u8> {
    le32(MSG_TRANSPORT) + le32(remote) + le64(counter) + chacha_seal(key, wg_nonce_spec(counter), Seq::empty(), plaintext)
}

impl Device {
    /// Complete a handshake we initiated with its response: check length
    /// and mac1, find the peer by our index, consume its pending
    /// initiation, check the empty payload, and start the session.
    pub fn consume_response(&mut self, msg: &[u8]) -> (r: Result<usize, WgError>)
        requires old(self).wf(),
        ensures
            response_outcome(*old(self), msg@, *final(self), r),
            sessions_kept(*old(self), *final(self)),
            peers_kept(*old(self), *final(self)),
    {
        if msg.len() != RESPONSE_LEN {
            return Err(WgError::BadLength);
        }
        let our_index = read_le32(msg, 8);
        let key16 = mac1_key(&self.public_key);
        let mac1_calc = compute_mac1(&key16, slice_subrange(msg, 0, 60));
        if !ct_eq(mac1_calc.as_slice(), slice_subrange(msg, 60, 76)) {
            return Err(WgError::BadMac1);
        }
        let peer_idx = match self.lookup_index(our_index) {
            Some(i) => i,
            None => { return Err(WgError::UnknownIndex); }
        };
        proof {
            assert forall|i: int| #[trigger] first_owner(self@, our_index, i) implies i == peer_idx by {
                if i < peer_idx {
                    assert(!owns_index(self@[i], our_index));
                } else if i > peer_idx {
                    assert(!owns_index(self@[peer_idx as int], our_index));
                }
            }
        }
        let ghost old_peers = self@;
        let mut peer = match self.peers[peer_idx].take() {
            Some(p) => p,
            None => { return Err(WgError::UnknownIndex); }
        };
        let pending = match peer.pending.take() {
            Some(pi) => pi,
            None => {
                self.peers.set(peer_idx, Some(peer));
                proof {
                    assert(self@ =~= old_peers.update(peer_idx as int, self@[peer_idx as int]));
                }
                return Err(WgError::NoPendingHandshake);
            }
        };
        let their_index = read_le32(msg, 4);
        let e_them: [u8; 32] = to_array::<32>(msg, 12);
        let ck1 = kdf1(&pending.ck, e_them.as_slice());
        let h1 = mix_hash(&pending.h, e_them.as_slice());
        let dh1 = x25519(&pending.e_priv, &e_them);
        let (ck2, _a) = kdf2(&ck1, dh1.as_slice());
        let dh2 = x25519(&self.private_key, &e_them);
        let (ck3, _b) = kdf2(&ck2, dh2.as_slice());
        let (ck4, tau, k) = kdf3(&ck3, peer.psk.as_slice());
        let h2 = mix_hash(&h1, tau.as_slice());
        proof {
            assert(e_them@ =~= msg@.subrange(12, 44));
        }
        match aead_open(&k, &h2, slice_subrange(msg, 44, 60)) {
            Ok(_) => {}
            Err(e) => {
                self.peers.set(peer_idx, Some(peer));
                proof {
                    assert(self@ =~= old_peers.update(peer_idx as int, self@[peer_idx as int]));
                }
                return Err(e);
            }
        }
        let empty: [u8; 0] = [];
        let (t1, t2) = kdf2(&ck4, empty.as_slice());
        proof {
            assert(empty@ =~= Seq::<u8>::empty());
        }
        peer.session = Some(Session {
            local_index: our_index,
            remote_index: their_index,
            send_key: t1,
            recv_key: t2,
            send_counter: 0,
            recv_window: ReplayWindow::new(),
        });
        self.peers.set(peer_idx, Some(peer));
        proof {
            assert(self@ =~= old_peers.update(peer_idx as int, self@[peer_idx as int]));
        }
        Ok(peer_idx)
    }

    /// Encrypt `plaintext` for the established peer in slot `peer_idx`: the
    /// message is the header (type, receiver index, counter) and the sealed
    /// payload; the send counter advances. Returns the message length.
    pub fn encrypt_transport(&mut self, peer_idx: usize, plaintext: &[u8], out: &mut [u8]) -> (r: Result<usize, WgError>)
        requires
            old(self).wf(),
            aead_len_safe(plaintext@.len() as int),
            peer_idx < MAX_PEERS ==> (old(self)@[peer_idx as int] matches Some(p)
                ==> (p.session matches Some(s) ==> s.send_counter < u64::MAX)),
        ensures
            transport_sent(*old(self), peer_idx, plaintext@, old(out)@, *final(self), final(out)@, r),
    {
        if peer_idx >= MAX_PEERS || self.peers[peer_idx].is_none() {
            return Err(WgError::UnknownPeer);
        }
        let ghost old_peers = self@;
        let mut peer = match self.peers[peer_idx].take() {
            Some(p) => p,
            None => { return Err(WgError::UnknownPeer); }
        };
        let mut session = match peer.session.take() {
            Some(s) => s,
            None => {
                self.peers.set(peer_idx, Some(peer));
                proof {
                    assert(self@ =~= old_peers);
                }
                return Err(WgError::NoSession);
            }
        };
        if out.len() < TRANSPORT_HEADER_LEN || out.len() - TRANSPORT_HEADER_LEN < plaintext.len()
            || out.len() - TRANSPORT_HEADER_LEN - plaintext.len() < 16 {
            peer.session = Some(session);
            self.peers.set(peer_idx, Some(peer));
            proof {
                assert(self@ =~= old_peers);
            }
            return Err(WgError::BufferTooSmall);
        }
        let counter = session.send_counter;
        session.send_counter = session.send_counter + 1;
        let remote = session.remote_index;
        let key = session.send_key;
        peer.session = Some(session);
        self.peers.set(peer_idx, Some(peer));
        proof {
            assert(self@ =~= old_peers.update(peer_idx as int, self@[peer_idx as int]));
        }
        let nonce = wg_nonce(counter);
        let empty: [u8; 0] = [];
        let sealed = match seal(&key, &nonce, empty.as_slice(), plaintext) {
            Some(v) => v,
            None => { return Err(WgError::BufferTooSmall); }
        };
        let mut head: Vec<u8> = Vec::new();
        push_bytes(&mut head, u32_to_le(MSG_TRANSPORT).as_slice());
        push_bytes(&mut head, u32_to_le(remote).as_slice());
        push_bytes(&mut head, u64_to_le(counter).as_slice());
        push_bytes(&mut head, sealed.as_slice());
        proof {
            assert(empty@ =~= Seq::<u8>::empty());
        }
        crate::bytes::copy_into(out, 0, head.as_slice());
        proof {
            assert(out@.subrange(0, head@.len() as int) =~= head@);
        }
        Ok(TRANSPORT_HEADER_LEN + plaintext.len() + 16)
    }

    /// Decrypt an incoming transport message into `out`: find the session
    /// by receiver index, check the counter against the replay window (and
    /// record it), then open the payload. Returns the peer's slot and the
    /// plaintext length.
    pub fn decrypt_transport(&mut self, msg: &[u8], out: &mut [u8]) -> (r: Result<(usize, usize), WgError>)
        requires old(self).wf(), msg@.len() >= 32 ==> aead_len_safe(msg@.len() - 32),
        ensures
            transport_outcome(*old(self), msg@, old(out)@, *final(self), final(out)@, r),
            sessions_kept(*old(self), *final(self)),
            peers_kept(*old(self), *final(self)),
    {
        if msg.len() < TRANSPORT_HEADER_LEN + 16 {
            return Err(WgError::BadLength);
        }
        let receiver = read_le32(msg, 4);
        let counter = read_le64(msg, 8);
        let peer_idx = match self.lookup_index(receiver) {
            Some(i) => i,
            None => { return Err(WgError::UnknownIndex); }
        };
        proof {
            assert forall|i: int| #[trigger] first_owner(self@, receiver, i) implies i == peer_idx by {
                if i < peer_idx {
                    assert(!owns_index(self@[i], receiver));
                } else if i > peer_idx {
                    assert(!owns_index(self@[peer_idx as int], receiver));
                }
            }
        }
        let ghost old_peers = self@;
        let mut peer = match self.peers[peer_idx].take() {
            Some(p) => p,
            None => { return Err(WgError::UnknownIndex); }
        };
        let mut session = match peer.session.take() {
            Some(s) => s,
            None => {
                self.peers.set(peer_idx, Some(peer));
                proof {
                    assert(self@ =~= old_peers);
                }
                return Err(WgError::NoSession);
            }
        };
        if session.local_index != receiver {
            peer.session = Some(session);
            self.peers.set(peer_idx, Some(peer));
            proof {
                assert(self@ =~= old_peers);
            }
            return Err(WgError::UnknownIndex);
        }
        match session.recv_window.check_and_mark(counter) {
            Ok(()) => {}
            Err(e) => {
                peer.session = Some(session);
                self.peers.set(peer_idx, Some(peer));
                proof {
                    assert(self@ =~= old_peers);
                }
                return Err(e);
            }
        }
        let key = session.recv_key;
        peer.session = Some(session);
        self.peers.set(peer_idx, Some(peer));
        proof {
            assert(self@ =~= old_peers.update(peer_idx as int, self@[peer_idx as int]));
        }
        let sealed = slice_subrange(msg, TRANSPORT_HEADER_LEN, msg.len());
        let nonce = wg_nonce(counter);
        let empty: [u8; 0] = [];
        proof {
            assert(empty@ =~= Seq::<u8>::empty());
        }
        let ct_len = sealed.len() - 16;
        if out.len() < ct_len {
            proof {
                assert forall|pt: Seq<u8>| #[trigger] chacha_seal(key@, wg_nonce_spec(counter), Seq::empty(), pt)
                    == sealed@ && pt.len() / 64 < 0xFFFF_FFFF implies out@.len() < sealed@.len() - 16 by {}
            }
            return Err(WgError::DecryptFailed);
        }
        let plain = match open(&key, &nonce, empty.as_slice(), sealed) {
            Some(p) => p,
            None => { return Err(WgError::DecryptFailed); }
        };
        crate::bytes::copy_into(out, 0, plain.as_slice());
        proof {
            assert(out@.subrange(0, ct_len as int) =~= plain@);
        }
        Ok((peer_idx, ct_len))
    }

    /// Handle one incoming datagram by its type: an initiation is answered
    /// (with random `e_priv` and `index_bytes`), a response completes our
    /// handshake, a transport message is decrypted, a cookie reply ignored.
    pub fn handle_message(&mut self, msg: &[u8], e_priv: [u8; 32], index_bytes: [u8; 4], resp_out: &mut [u8; 92],
        plain_out: &mut [u8]) -> (r: Result<WgEvent, WgError>)
        requires old(self).wf(), msg@.len() >= 32 ==> aead_len_safe(msg@.len() - 32),
        ensures
            final(self).wf(), final(self).priv_key() == old(self).priv_key(),
            final(self).pub_key() == old(self).pub_key(),
            peers_kept(*old(self), *final(self)), sessions_kept(*old(self), *final(self)),
            msg@.len() < 4 ==> r == Err::<WgEvent, WgError>(WgError::BadLength) && *final(self) == *old(self)
                && final(resp_out)@ == old(resp_out)@ && final(plain_out)@ == old(plain_out)@,
            msg@.len() >= 4 ==> ({
                let ty = from_le32(msg@.subrange(0, 4));
                &&& ty == MSG_HANDSHAKE_INITIATION ==> initiation_outcome(*old(self), msg@, e_priv, index_bytes,
                        old(resp_out)@, *final(self), final(resp_out)@, event_peer(r))
                    && (r is Ok ==> (r matches Ok(WgEvent::SendResponse { .. })))
                    && final(plain_out)@ == old(plain_out)@
                &&& ty == MSG_HANDSHAKE_RESPONSE ==> response_outcome(*old(self), msg@, *final(self), event_peer(r))
                    && (r is Ok ==> (r matches Ok(WgEvent::Established { initiator: true, .. })))
                    && final(resp_out)@ == old(resp_out)@ && final(plain_out)@ == old(plain_out)@
                &&& ty == MSG_TRANSPORT ==> transport_outcome(*old(self), msg@, old(plain_out)@, *final(self),
                        final(plain_out)@, event_transport(r))
                    && (r is Ok ==> (r matches Ok(WgEvent::Transport { .. })))
                    && final(resp_out)@ == old(resp_out)@
                &&& ty == MSG_COOKIE_REPLY ==> r == Ok::<WgEvent, WgError>(WgEvent::Ignored)
                    && *final(self) == *old(self)
                    && final(resp_out)@ == old(resp_out)@ && final(plain_out)@ == old(plain_out)@
                &&& (ty != MSG_HANDSHAKE_INITIATION && ty != MSG_HANDSHAKE_RESPONSE && ty != MSG_TRANSPORT
                    && ty != MSG_COOKIE_REPLY) ==> r == Err::<WgEvent, WgError>(WgError::BadMessageType)
                    && *final(self) == *old(self)
                    && final(resp_out)@ == old(resp_out)@ && final(plain_out)@ == old(plain_out)@
            }),
    {
        if msg.len() < 4 {
            return Err(WgError::BadLength);
        }
        let ty = read_le32(msg, 0);
        if ty == MSG_HANDSHAKE_INITIATION {
            match self.consume_initiation(msg, e_priv, index_bytes, resp_out) {
                Ok(p) => Ok(WgEvent::SendResponse { peer_idx: p }),
                Err(e) => Err(e),
            }
        } else if ty == MSG_HANDSHAKE_RESPONSE {
            match self.consume_response(msg) {
                Ok(p) => Ok(WgEvent::Established { peer_idx: p, initiator: true }),
                Err(e) => Err(e),
            }
        } else if ty == MSG_TRANSPORT {
            match self.decrypt_transport(msg, plain_out) {
                Ok((p, len)) => Ok(WgEvent::Transport { peer_idx: p, len }),
                Err(e) => Err(e),
            }
        } else if ty == MSG_COOKIE_REPLY {
            Ok(WgEvent::Ignored)
        } else {
            Err(WgError::BadMessageType)
        }
    }
}

// --- the handshake, end to end -------------------------------------------------

/// Output lengths the primitives have on the inputs the handshake feeds
/// them, as the trusted items state them: BLAKE2s digests and MACs under a
/// 32-byte key are 32 bytes, X25519 of 32-byte inputs is 32 bytes, and
/// sealing adds a 16-byte tag.
pub open spec fn primitive_lengths() -> bool {
    &&& forall|x: Seq<u8>| #[trigger] blake2s_256_spec(x).len() == 32
    &&& forall|k: Seq<u8>, x: Seq<u8>| k.len() == 32 ==> #[trigger] keyed_blake2s_spec(k, x).len() == 32
    &&& forall|k: Seq<u8>, u: Seq<u8>| k.len() == 32 && u.len() == 32 ==> #[trigger] x25519_spec(k, u).len() == 32
    &&& forall|k: Seq<u8>, n: Seq<u8>, a: Seq<u8>, p: Seq<u8>|
        k.len() == 32 && n.len() == 12 && p.len() / 64 < 0xFFFF_FFFF
        ==> #[trigger] chacha_seal(k, n, a, p).len() == p.len() + 16
}

/// Sealing under one key, nonce and associated data is one-to-one, as the
/// trusted decryption states (it gives back the one plaintext sealed).
pub open spec fn seal_one_to_one() -> bool {
    forall|k: Seq<u8>, n: Seq<u8>, a: Seq<u8>, p: Seq<u8>, q: Seq<u8>|
        k.len() == 32 && n.len() == 12 && p.len() / 64 < 0xFFFF_FFFF && q.len() / 64 < 0xFFFF_FFFF
        && #[trigger] chacha_seal(k, n, a, p) == #[trigger] chacha_seal(k, n, a, q) ==> p == q
}

proof fn lemma_dec_sealed(k: Seq<u8>, aad: Seq<u8>, p: Seq<u8>)
    requires seal_one_to_one(), k.len() == 32, p.len() / 64 < 0xFFFF_FFFF,
    ensures dec_spec(k, aad, chacha_seal(k, zero_nonce(), aad, p)) == Some(p),
{
    let sealed = chacha_seal(k, zero_nonce(), aad, p);
    assert(zero_nonce().len() == 12);
    assert(exists|q: Seq<u8>| #[trigger] chacha_seal(k, zero_nonce(), aad, q) == sealed && q.len() / 64 < 0xFFFF_FFFF);
    let q = choose|q: Seq<u8>| #[trigger] chacha_seal(k, zero_nonce(), aad, q) == sealed && q.len() / 64 < 0xFFFF_FFFF;
    assert(q == p);
}

/// A full handshake between an initiator with private key `a` and a
/// responder with private key `b` (ephemerals `e_i`, `e_r`, indices `idx_i`,
/// `idx_r`, shared `psk`), given that X25519 agrees on each pair of keys the
/// two sides combine: the responder accepts the initiation (its mac1 checks,
/// it decrypts the initiator's static key and timestamp), the initiator
/// accepts the response (length, mac1, its own index, the empty payload),
/// and the session keys cross: what one side sends with, the other receives with.
pub proof fn law_handshake(a: Seq<u8>, b: Seq<u8>, e_i: Seq<u8>, e_r: Seq<u8>, psk: Seq<u8>, idx_i: u32,
    idx_r: u32, secs: u64)
    requires
        a.len() == 32, b.len() == 32, e_i.len() == 32, e_r.len() == 32, psk.len() == 32,
        primitive_lengths(), seal_one_to_one(),
        x25519_spec(e_i, x25519_spec(b, basepoint())) == x25519_spec(b, x25519_spec(e_i, basepoint())),
        x25519_spec(a, x25519_spec(b, basepoint())) == x25519_spec(b, x25519_spec(a, basepoint())),
        x25519_spec(e_i, x25519_spec(e_r, basepoint())) == x25519_spec(e_r, x25519_spec(e_i, basepoint())),
        x25519_spec(a, x25519_spec(e_r, basepoint())) == x25519_spec(e_r, x25519_spec(a, basepoint())),
    ensures
        ({
            let pa = x25519_spec(a, basepoint());
            let pb = x25519_spec(b, basepoint());
            let (m1, ck, h) = initiation_spec(a, pa, pb, e_i, idx_i, secs);
            let (_c1, k1, h1) = resp_stage1(b, pb, m1);
            let (_c2, k2, h2) = resp_stage2(b, pb, m1, pa);
            let (m2, send_r, recv_r) = response_spec(b, pb, m1, pa, psk, e_r, idx_r);
            let (k, hc, t1, t2) = confirm_spec(a, e_i, ck, h, psk, m2);
            &&& m1.len() == INITIATION_LEN && from_le32(m1.subrange(0, 4)) == MSG_HANDSHAKE_INITIATION
            &&& mac1_ok(pb, m1, 148)
            &&& dec_spec(k1, h1, m1.subrange(40, 88)) == Some(pa)
            &&& dec_spec(k2, h2, m1.subrange(88, 116)) == Some(tai64n_spec(secs))
            &&& m2.len() == RESPONSE_LEN && from_le32(m2.subrange(0, 4)) == MSG_HANDSHAKE_RESPONSE
            &&& mac1_ok(pa, m2, 92)
            &&& from_le32(m2.subrange(4, 8)) == idx_r && from_le32(m2.subrange(8, 12)) == idx_i
            &&& dec_spec(k, hc, m2.subrange(44, 60)) == Some(Seq::<u8>::empty())
            &&& t1 == recv_r && t2 == send_r
        }),
{
    let bp = basepoint();
    assert(bp.len() == 32);
    let pa = x25519_spec(a, bp);
    let pb = x25519_spec(b, bp);
    let ei = x25519_spec(e_i, bp);
    let er = x25519_spec(e_r, bp);
    assert(pa.len() == 32 && pb.len() == 32 && ei.len() == 32 && er.len() == 32);
    let zn = zero_nonce();
    assert(zn.len() == 12);
    // initiator
    let ck0 = initial_ck_spec();
    assert(ck0.len() == 32);
    let h0 = mix_hash_spec(initial_h_spec(), pb);
    let ck1 = kdf1_spec(ck0, ei);
    let h1 = mix_hash_spec(h0, ei);
    let dh1 = x25519_spec(e_i, pb);
    let (ck2, k1) = kdf2_spec(ck1, dh1);
    assert(ck1.len() == 32 && ck2.len() == 32 && k1.len() == 32);
    let static_enc = chacha_seal(k1, zn, h1, pa);
    assert(static_enc.len() == 48);
    let h2 = mix_hash_spec(h1, static_enc);
    let (ck3, k2) = kdf2_spec(ck2, x25519_spec(a, pb));
    assert(ck3.len() == 32 && k2.len() == 32);
    let ts = tai64n_spec(secs);
    assert(ts.len() == 12);
    let ts_enc = chacha_seal(k2, zn, h2, ts);
    assert(ts_enc.len() == 28);
    let h3 = mix_hash_spec(h2, ts_enc);
    let prefix = le32(MSG_HANDSHAKE_INITIATION) + le32(idx_i) + ei + static_enc + ts_enc;
    assert(prefix.len() == 116);
    let key1 = mac1_key_spec(pb) + zeros(16);
    assert(key1.len() == 32);
    let mac = mac1_spec(mac1_key_spec(pb), prefix);
    assert(mac.len() == 16);
    let m1 = prefix + mac + zeros(16);
    assert(initiation_spec(a, pa, pb, e_i, idx_i, secs) == (m1, ck3, h3));
    assert(m1.len() == 148);
    assert(m1.subrange(0, 4) =~= le32(MSG_HANDSHAKE_INITIATION));
    assert(m1.subrange(4, 8) =~= le32(idx_i));
    assert(m1.subrange(8, 40) =~= ei);
    assert(m1.subrange(40, 88) =~= static_enc);
    assert(m1.subrange(88, 116) =~= ts_enc);
    assert(m1.subrange(0, 116) =~= prefix);
    assert(m1.subrange(116, 132) =~= mac);
    crate::bytes::lemma_le32_roundtrip(MSG_HANDSHAKE_INITIATION);
    // responder on the initiation
    assert(resp_stage1(b, pb, m1) == (ck2, k1, h1));
    lemma_dec_sealed(k1, h1, pa);
    assert(resp_stage2(b, pb, m1, pa) == (ck3, k2, h2));
    lemma_dec_sealed(k2, h2, ts);
    // the response
    let ck4 = kdf1_spec(ck3, er);
    let h4 = mix_hash_spec(mix_hash_spec(h2, ts_enc), er);
    let (ck5, _x) = kdf2_spec(ck4, x25519_spec(e_r, ei));
    let (ck6, _y) = kdf2_spec(ck5, x25519_spec(e_r, pa));
    assert(ck4.len() == 32 && ck5.len() == 32 && ck6.len() == 32);
    let (ck7, tau, k3) = kdf3_spec(ck6, psk);
    assert(ck7.len() == 32 && k3.len() == 32);
    let h5 = mix_hash_spec(h4, tau);
    let empty_enc = chacha_seal(k3, zn, h5, Seq::empty());
    assert(empty_enc.len() == 16);
    let rprefix = le32(MSG_HANDSHAKE_RESPONSE) + le32(idx_r) + m1.subrange(4, 8) + er + empty_enc;
    assert(rprefix.len() == 60);
    let key2 = mac1_key_spec(pa) + zeros(16);
    assert(key2.len() == 32);
    let rmac = mac1_spec(mac1_key_spec(pa), rprefix);
    assert(rmac.len() == 16);
    let m2 = rprefix + rmac + zeros(16);
    let (t1, t2) = kdf2_spec(ck7, Seq::empty());
    assert(response_spec(b, pb, m1, pa, psk, e_r, idx_r) == (m2, t2, t1));
    assert(m2.len() == 92);
    assert(m2.subrange(0, 4) =~= le32(MSG_HANDSHAKE_RESPONSE));
    assert(m2.subrange(4, 8) =~= le32(idx_r));
    assert(m2.subrange(8, 12) =~= le32(idx_i));
    assert(m2.subrange(12, 44) =~= er);
    assert(m2.subrange(44, 60) =~= empty_enc);
    assert(m2.subrange(0, 60) =~= rprefix);
    assert(m2.subrange(60, 76) =~= rmac);
    crate::bytes::lemma_le32_roundtrip(MSG_HANDSHAKE_RESPONSE);
    crate::bytes::lemma_le32_roundtrip(idx_r);
    crate::bytes::lemma_le32_roundtrip(idx_i);
    // the initiator on the response
    assert(confirm_spec(a, e_i, ck3, h3, psk, m2) == (k3, h5, t1, t2));
    lemma_dec_sealed(k3, h5, Seq::empty());
}

/// The handshake through two devices: an initiator `di0` whose pending
/// initiation for slot `j` is the one `initiation_spec` built, and a responder
/// `dr0` whose slot `i` holds the initiator's key with an older timestamp and
/// the same `psk`. Given the premises of `law_handshake`, `consume_initiation`
/// on the initiation accepts it for slot `i`, `consume_response` on the
/// response it wrote accepts it for slot `j`, and the two new sessions hold
/// crossed keys and each other's indices.
pub proof fn law_handshake_devices(di0: Device, di1: Device, dr0: Device, dr1: Device, e_i: Seq<u8>,
    psk: Seq<u8>, idx_i: u32, secs: u64, e_r: [u8; 32], index_r: [u8; 4], o0: Seq<u8>, o1: Seq<u8>,
    i: int, j: int, r1: Result<usize, WgError>, r2: Result<usize, WgError>)
    requires
        di0.priv_key().len() == 32, dr0.priv_key().len() == 32, e_i.len() == 32, psk.len() == 32,
        di0.pub_key() == x25519_spec(di0.priv_key(), basepoint()),
        dr0.pub_key() == x25519_spec(dr0.priv_key(), basepoint()),
        primitive_lengths(), seal_one_to_one(),
        ({
            let (a, b, er) = (di0.priv_key(), dr0.priv_key(), e_r@);
            &&& x25519_spec(e_i, x25519_spec(b, basepoint())) == x25519_spec(b, x25519_spec(e_i, basepoint()))
            &&& x25519_spec(a, x25519_spec(b, basepoint())) == x25519_spec(b, x25519_spec(a, basepoint()))
            &&& x25519_spec(e_i, x25519_spec(er, basepoint())) == x25519_spec(er, x25519_spec(e_i, basepoint()))
            &&& x25519_spec(a, x25519_spec(er, basepoint())) == x25519_spec(er, x25519_spec(a, basepoint()))
        }),
        ({
            let (m1, ck, h) = initiation_spec(di0.priv_key(), di0.pub_key(), dr0.pub_key(), e_i, idx_i, secs);
            &&& first_peer_with_key(dr0@, di0.pub_key(), i)
            &&& !lex_le(tai64n_spec(secs), dr0@[i]->0.last_tai64n@)
            &&& dr0@[i]->0.psk@ == psk
            &&& initiation_outcome(dr0, m1, e_r, index_r, o0, dr1, o1, r1)
            &&& first_owner(di0@, idx_i, j)
            &&& di0@[j]->0.pending matches Some(pi) && pi.e_priv@ == e_i && pi.ck@ == ck && pi.h@ == h
            &&& di0@[j]->0.psk@ == psk
            &&& response_outcome(di0, o1, di1, r2)
        }),
    ensures
        r1 == Ok::<usize, WgError>(i as usize),
        r2 == Ok::<usize, WgError>(j as usize),
        dr1@[i] matches Some(pr) && pr.session matches Some(sr),
        di1@[j] matches Some(pi) && pi.session matches Some(si),
        ({
            let sr = dr1@[i]->0.session->0;
            let si = di1@[j]->0.session->0;
            &&& si.send_key == sr.recv_key && si.recv_key == sr.send_key
            &&& si.local_index == sr.remote_index && si.remote_index == sr.local_index
            &&& si.local_index == idx_i && sr.local_index == from_le32(index_r@)
        }),
{
    let a = di0.priv_key();
    let b = dr0.priv_key();
    law_handshake(a, b, e_i, e_r@, psk, idx_i, from_le32(index_r@), secs);
    let pa = di0.pub_key();
    let pb = dr0.pub_key();
    let (m1, ck, h) = initiation_spec(a, pa, pb, e_i, idx_i, secs);
    let p = dr0@[i]->0;
    assert(first_peer_with_key(dr0@, pa, i));
    let (m2, _send_r, _recv_r) = response_spec(b, pb, m1, pa, p.psk@, e_r@, from_le32(index_r@));
    assert(r1 == Ok::<usize, WgError>(i as usize));
    assert(o1 == m2);
    assert(first_owner(di0@, from_le32(o1.subrange(8, 12)), j));
    assert(r2 == Ok::<usize, WgError>(j as usize));
}

/// An initiation made by `create_initiation` is taken by the peer it names:
/// given the premises of `law_handshake` and a responder that lists the
/// initiator's key with an older timestamp and the same pre-shared key, the
/// message is made, the responder accepts it for slot `i`, the initiator
/// accepts the response for the slot it initiated from, and the two sessions
/// hold crossed keys.
pub proof fn law_initiation_accepted(di0: Device, di1: Device, di2: Device, dr0: Device, dr1: Device,
    peer_idx: usize, e_i: [u8; 32], index_i: [u8; 4], secs: u64, m0: Seq<u8>, m: Seq<u8>, ri: Result<(), WgError>,
    psk: Seq<u8>, e_r: [u8; 32], index_r: [u8; 4], o0: Seq<u8>, o1: Seq<u8>, i: int,
    r1: Result<usize, WgError>, r2: Result<usize, WgError>)
    requires
        di0.priv_key().len() == 32, dr0.priv_key().len() == 32, psk.len() == 32,
        di0.pub_key() == x25519_spec(di0.priv_key(), basepoint()),
        dr0.pub_key() == x25519_spec(dr0.priv_key(), basepoint()),
        primitive_lengths(), seal_one_to_one(),
        ({
            let (a, b, ei, er) = (di0.priv_key(), dr0.priv_key(), e_i@, e_r@);
            &&& x25519_spec(ei, x25519_spec(b, basepoint())) == x25519_spec(b, x25519_spec(ei, basepoint()))
            &&& x25519_spec(a, x25519_spec(b, basepoint())) == x25519_spec(b, x25519_spec(a, basepoint()))
            &&& x25519_spec(ei, x25519_spec(er, basepoint())) == x25519_spec(er, x25519_spec(ei, basepoint()))
            &&& x25519_spec(a, x25519_spec(er, basepoint())) == x25519_spec(er, x25519_spec(a, basepoint()))
        }),
        initiation_created(di0, peer_idx, e_i, index_i, secs, m0, di1, m, ri),
        peer_idx < MAX_PEERS, di0@[peer_idx as int] matches Some(p) && p.public_key@ == dr0.pub_key() && p.psk@ == psk,
        first_owner(di1@, from_le32(index_i@), peer_idx as int),
        first_peer_with_key(dr0@, di0.pub_key(), i),
        !lex_le(tai64n_spec(secs), dr0@[i]->0.last_tai64n@),
        dr0@[i]->0.psk@ == psk,
        initiation_outcome(dr0, m, e_r, index_r, o0, dr1, o1, r1),
        response_outcome(di1, o1, di2, r2),
    ensures
        ri is Ok,
        r1 == Ok::<usize, WgError>(i as usize),
        r2 == Ok::<usize, WgError>(peer_idx),
        dr1@[i] matches Some(pr) && pr.session matches Some(sr),
        di2@[peer_idx as int] matches Some(pi) && pi.session matches Some(si),
        ({
            let sr = dr1@[i]->0.session->0;
            let si = di2@[peer_idx as int]->0.session->0;
            &&& si.send_key == sr.recv_key && si.recv_key == sr.send_key
            &&& si.local_index == sr.remote_index && si.remote_index == sr.local_index
        }),
{
    law_handshake_devices(di1, di2, dr0, dr1, e_i@, psk, from_le32(index_i@), secs, e_r, index_r, o0, o1, i,
        peer_idx as int, r1, r2);
}

/// A transport message goes through: what `encrypt_transport` on one side of
/// a session writes, `decrypt_transport` on the other side (whose session
/// has our remote index as its own, our send key as its receive key, and has
/// not yet seen this counter) opens to the same plaintext.
pub proof fn law_transport_delivered(a0: Device, a1: Device, ia: usize, p: Seq<u8>, oa0: Seq<u8>, oa1: Seq<u8>,
    ra: Result<usize, WgError>, b0: Device, b1: Device, ob0: Seq<u8>, ob1: Seq<u8>,
    rb: Result<(usize, usize), WgError>, jb: int)
    requires
        transport_sent(a0, ia, p, oa0, a1, oa1, ra),
        ra matches Ok(n) && transport_outcome(b0, oa1.subrange(0, n as int), ob0, b1, ob1, rb),
        ia < MAX_PEERS, a0.wf(), a0@[ia as int] matches Some(pa) && pa.session matches Some(sa),
        ({
            let sa = a0@[ia as int]->0.session->0;
            &&& first_owner(b0@, sa.remote_index, jb)
            &&& b0@[jb]->0.session matches Some(sb)
            &&& sb.local_index == sa.remote_index && sb.recv_key == sa.send_key
            &&& !sb.recv_window.is_marked(sa.send_counter) && !sb.recv_window.too_old(sa.send_counter)
        }),
        ob0.len() >= p.len(), oa0.len() <= usize::MAX,
    ensures
        rb == Ok::<(usize, usize), WgError>((jb as usize, p.len() as usize)),
        ob1.subrange(0, p.len() as int) == p,
{
    let sa = a0@[ia as int]->0.session->0;
    let n = ra->Ok_0;
    let m = oa1.subrange(0, n as int);
    assert(oa0.len() >= TRANSPORT_HEADER_LEN + p.len() + 16);
    assert(p.len() / 64 < 0xFFFF_FFFF);
    assert(n == TRANSPORT_HEADER_LEN + p.len() + 16);
    assert(m == transport_spec(sa.remote_index, sa.send_counter, sa.send_key@, p));
    law_transport_roundtrip(sa.remote_index, sa.send_counter, sa.send_key@, p);
    assert(m.len() == TRANSPORT_HEADER_LEN + p.len() + 16);
    assert(chacha_seal(sa.send_key@, wg_nonce_spec(sa.send_counter), Seq::empty(), p)
        == m.subrange(16, m.len() as int));
}

/// A transport message is read back as it was written: its counter field is
/// the counter it was sent with, and its payload is the sealed plaintext
/// that `decrypt_transport` opens with the same key.
pub proof fn law_transport_roundtrip(remote: u32, counter: u64, key: Seq<u8>, plaintext: Seq<u8>)
    ensures
        ({
            let m = transport_spec(remote, counter, key, plaintext);
            &&& from_le32(m.subrange(0, 4)) == MSG_TRANSPORT
            &&& from_le32(m.subrange(4, 8)) == remote
            &&& from_le64(m.subrange(8, 16)) == counter
            &&& m.subrange(16, m.len() as int) == chacha_seal(key, wg_nonce_spec(counter), Seq::empty(), plaintext)
        }),
{
    let m = transport_spec(remote, counter, key, plaintext);
    assert(m.subrange(0, 4) =~= le32(MSG_TRANSPORT));
    assert(m.subrange(4, 8) =~= le32(remote));
    assert(m.subrange(8, 16) =~= le64(counter));
    assert(m.subrange(16, m.len() as int) =~= chacha_seal(key, wg_nonce_spec(counter), Seq::empty(), plaintext));
    crate::bytes::lemma_le32_roundtrip(MSG_TRANSPORT);
    crate::bytes::lemma_le32_roundtrip(remote);
    crate::bytes::lemma_le64_roundtrip(counter);
}

} // verus!
