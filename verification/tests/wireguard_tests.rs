use kernel_core::wireguard::{Device, WgError, WgEvent, INITIATION_LEN, RESPONSE_LEN};

fn deterministic_rand(seed: u8) -> impl FnMut(&mut [u8]) {
    let mut state = seed.wrapping_add(1);
    move |buf: &mut [u8]| {
        for b in buf.iter_mut() {
            state ^= state << 3;
            state ^= state >> 5;
            state = state.wrapping_mul(31).wrapping_add(7);
            *b = state;
        }
    }
}

/// The ephemeral key and the index a handshake step draws, in that order.
fn draw(seed: u8) -> ([u8; 32], [u8; 4]) {
    let mut rng = deterministic_rand(seed);
    let mut e = [0u8; 32];
    rng(&mut e);
    let mut idx = [0u8; 4];
    rng(&mut idx);
    (e, idx)
}

fn two_devices() -> (Device, Device, usize, usize) {
    let dev_i = Device::new([0x11; 32]);
    let dev_r = Device::new([0x22; 32]);
    let pub_i = dev_i.public_key();
    let pub_r = dev_r.public_key();
    let mut dev_i = dev_i;
    let mut dev_r = dev_r;
    let pi = dev_i.add_peer(pub_r, None, Some(([10, 0, 2, 2], 51820)), [10, 77, 0, 1]).unwrap();
    let pr = dev_r.add_peer(pub_i, None, None, [10, 77, 0, 2]).unwrap();
    (dev_i, dev_r, pi, pr)
}

fn handshake(dev_i: &mut Device, dev_r: &mut Device, pi: usize, _pr: usize) {
    let mut init = [0u8; INITIATION_LEN];
    let (e, idx) = draw(1);
    dev_i.create_initiation(pi, e, idx, 1_700_000_000, &mut init).unwrap();
    let mut resp = [0u8; RESPONSE_LEN];
    let (e, idx) = draw(2);
    dev_r.consume_initiation(&init, e, idx, &mut resp).unwrap();
    dev_i.consume_response(&resp).unwrap();
}

#[test]
fn full_handshake_and_transport_both_ways() {
    let (mut dev_i, mut dev_r, pi, pr) = two_devices();
    handshake(&mut dev_i, &mut dev_r, pi, pr);
    assert!(dev_i.is_established(pi));
    assert!(dev_r.is_established(pr));

    let mut packet = [0u8; 256];
    let n = dev_i.encrypt_transport(pi, b"hello from initiator", &mut packet).unwrap();
    let mut plain = [0u8; 256];
    let (peer, plen) = dev_r.decrypt_transport(&packet[..n], &mut plain).unwrap();
    assert_eq!(peer, pr);
    assert_eq!(&plain[..plen], b"hello from initiator");

    let n = dev_r.encrypt_transport(pr, b"hello from responder", &mut packet).unwrap();
    let (peer, plen) = dev_i.decrypt_transport(&packet[..n], &mut plain).unwrap();
    assert_eq!(peer, pi);
    assert_eq!(&plain[..plen], b"hello from responder");
}

#[test]
fn replay_is_rejected() {
    let (mut dev_i, mut dev_r, pi, pr) = two_devices();
    handshake(&mut dev_i, &mut dev_r, pi, pr);
    let mut packet = [0u8; 256];
    let n = dev_i.encrypt_transport(pi, b"once", &mut packet).unwrap();
    let mut plain = [0u8; 256];
    dev_r.decrypt_transport(&packet[..n], &mut plain).unwrap();
    let again = dev_r.decrypt_transport(&packet[..n], &mut plain);
    assert_eq!(again, Err(WgError::Replay));
}

#[test]
fn wrong_key_cannot_decrypt() {
    let (mut dev_i, mut dev_r, pi, _pr) = two_devices();
    handshake(&mut dev_i, &mut dev_r, pi, _pr);
    let mut packet = [0u8; 256];
    let n = dev_i.encrypt_transport(pi, b"secret", &mut packet).unwrap();
    let mut stranger = Device::new([0x33; 32]);
    let _ = stranger.add_peer(dev_i.public_key(), None, None, [10, 77, 0, 2]);
    let mut plain = [0u8; 256];
    assert!(stranger.decrypt_transport(&packet[..n], &mut plain).is_err());
}

#[test]
fn bad_mac1_is_rejected_cheaply() {
    let (mut dev_i, mut dev_r, pi, _pr) = two_devices();
    let mut init = [0u8; INITIATION_LEN];
    let (e, idx) = draw(1);
    dev_i.create_initiation(pi, e, idx, 1_700_000_000, &mut init).unwrap();
    init[116] ^= 0xff;
    let mut resp = [0u8; RESPONSE_LEN];
    let (e, idx) = draw(2);
    let r = dev_r.consume_initiation(&init, e, idx, &mut resp);
    assert_eq!(r, Err(WgError::BadMac1));
}

#[test]
fn stale_timestamp_rejected_on_replay_initiation() {
    let (mut dev_i, mut dev_r, pi, _pr) = two_devices();
    let mut init = [0u8; INITIATION_LEN];
    let (e, idx) = draw(1);
    dev_i.create_initiation(pi, e, idx, 1_700_000_000, &mut init).unwrap();
    let mut resp = [0u8; RESPONSE_LEN];
    let (e, idx) = draw(2);
    dev_r.consume_initiation(&init, e, idx, &mut resp).unwrap();
    let (e, idx) = draw(3);
    let r = dev_r.consume_initiation(&init, e, idx, &mut resp);
    assert_eq!(r, Err(WgError::StaleTimestamp));
}

#[test]
fn messages_are_dispatched_by_type() {
    let (mut dev_i, mut dev_r, pi, pr) = two_devices();
    let mut init = [0u8; INITIATION_LEN];
    let (e, idx) = draw(1);
    dev_i.create_initiation(pi, e, idx, 5, &mut init).unwrap();
    let mut resp = [0u8; RESPONSE_LEN];
    let mut plain = [0u8; 64];
    let (e, idx) = draw(2);
    match dev_r.handle_message(&init, e, idx, &mut resp, &mut plain) {
        Ok(WgEvent::SendResponse { peer_idx }) => assert_eq!(peer_idx, pr),
        _ => panic!("expected a response"),
    }
    match dev_i.handle_message(&resp, e, idx, &mut [0u8; RESPONSE_LEN], &mut plain) {
        Ok(WgEvent::Established { peer_idx, initiator }) => {
            assert_eq!(peer_idx, pi);
            assert!(initiator);
        }
        _ => panic!("expected an established session"),
    }
    let mut packet = [0u8; 64];
    let n = dev_i.encrypt_transport(pi, b"ping", &mut packet).unwrap();
    match dev_r.handle_message(&packet[..n], e, idx, &mut resp, &mut plain) {
        Ok(WgEvent::Transport { peer_idx, len }) => {
            assert_eq!(peer_idx, pr);
            assert_eq!(&plain[..len], b"ping");
        }
        _ => panic!("expected a transport message"),
    }
    let cookie = [3u8, 0, 0, 0, 0, 0];
    assert!(matches!(dev_r.handle_message(&cookie, e, idx, &mut resp, &mut plain), Ok(WgEvent::Ignored)));
    let junk = [9u8, 0, 0, 0];
    assert!(matches!(dev_r.handle_message(&junk, e, idx, &mut resp, &mut plain), Err(WgError::BadMessageType)));
    assert!(matches!(dev_r.handle_message(&[1, 0], e, idx, &mut resp, &mut plain), Err(WgError::BadLength)));
}

#[test]
fn peer_table_limits_and_errors() {
    let mut d = Device::new([5u8; 32]);
    for i in 0..8u8 {
        assert_eq!(d.add_peer([i; 32], Some([1; 32]), None, [0; 4]), Ok(i as usize));
    }
    assert_eq!(d.peer_count(), 8);
    assert_eq!(d.add_peer([9; 32], None, None, [0; 4]), Err(WgError::NoRoom));
    let mut out = [0u8; 64];
    assert_eq!(d.encrypt_transport(0, b"x", &mut out), Err(WgError::NoSession));
    assert_eq!(d.encrypt_transport(9, b"x", &mut out), Err(WgError::UnknownPeer));
    let mut init = [0u8; INITIATION_LEN];
    assert_eq!(d.create_initiation(9, [0; 32], [0; 4], 0, &mut init), Err(WgError::UnknownPeer));
    let short = [4u8, 0, 0, 0];
    assert_eq!(d.decrypt_transport(&short, &mut out), Err(WgError::BadLength));
    let mut resp = [0u8; RESPONSE_LEN];
    assert_eq!(d.consume_initiation(&short, [0; 32], [0; 4], &mut resp), Err(WgError::BadLength));
    assert_eq!(d.consume_response(&short), Err(WgError::BadLength));
}

#[test]
fn transport_window_accepts_out_of_order_but_not_twice() {
    let (mut dev_i, mut dev_r, pi, pr) = two_devices();
    handshake(&mut dev_i, &mut dev_r, pi, pr);
    let mut p0 = [0u8; 64];
    let mut p1 = [0u8; 64];
    let n0 = dev_i.encrypt_transport(pi, b"zero", &mut p0).unwrap();
    let n1 = dev_i.encrypt_transport(pi, b"one", &mut p1).unwrap();
    let mut plain = [0u8; 64];
    assert!(dev_r.decrypt_transport(&p1[..n1], &mut plain).is_ok());
    assert!(dev_r.decrypt_transport(&p0[..n0], &mut plain).is_ok());
    assert_eq!(dev_r.decrypt_transport(&p0[..n0], &mut plain), Err(WgError::Replay));
    assert_eq!(dev_r.decrypt_transport(&p1[..n1], &mut plain), Err(WgError::Replay));
}

#[test]
fn handshake_through_messages_keeps_keys_and_peers() {
    let (mut dev_i, mut dev_r, pi, pr) = two_devices();
    let key_i = dev_i.public_key();
    let key_r = dev_r.public_key();
    let mut init = [0u8; INITIATION_LEN];
    let (e, idx) = draw(1);
    dev_i.create_initiation(pi, e, idx, 1_700_000_000, &mut init).unwrap();
    let mut resp = [0u8; RESPONSE_LEN];
    let mut plain = [0u8; 64];
    let (e, idx) = draw(2);
    match dev_r.handle_message(&init, e, idx, &mut resp, &mut plain) {
        Ok(WgEvent::SendResponse { peer_idx }) => assert_eq!(peer_idx, pr),
        _ => panic!("expected a response to send"),
    }
    let mut unused = [0u8; RESPONSE_LEN];
    match dev_i.handle_message(&resp, e, idx, &mut unused, &mut plain) {
        Ok(WgEvent::Established { peer_idx, initiator }) => {
            assert_eq!(peer_idx, pi);
            assert!(initiator);
        }
        _ => panic!("expected an established session"),
    }
    assert_eq!(unused, [0u8; RESPONSE_LEN]);
    assert!(dev_i.is_established(pi) && dev_r.is_established(pr));
    assert_eq!(dev_i.public_key(), key_i);
    assert_eq!(dev_r.public_key(), key_r);
    assert_eq!(dev_i.peer_count(), 1);
    assert_eq!(dev_r.peer_count(), 1);
    // a repeated initiation is refused and leaves the session in place
    assert!(matches!(dev_r.handle_message(&init, e, idx, &mut resp, &mut plain), Err(WgError::StaleTimestamp)));
    assert!(dev_r.is_established(pr));
}

#[test]
fn peer_count_caps_at_table_size() {
    let mut d = Device::new([0x33; 32]);
    let key = d.public_key();
    for n in 0..10u8 {
        let r = d.add_peer([n; 32], None, None, [10, 0, 0, n]);
        if n < 8 {
            assert_eq!(r, Ok(n as usize));
        } else {
            assert_eq!(r, Err(WgError::NoRoom));
        }
        assert_eq!(d.peer_count(), core::cmp::min(n as usize + 1, 8));
    }
    assert_eq!(d.public_key(), key);
}
