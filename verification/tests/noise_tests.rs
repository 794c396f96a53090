use p2p_conn::noise::Noise;
use p2p_conn::rng::chacha20_fill;
use p2p_conn::rng::chacha20_from_seed;
use p2p_conn::rw::ReadWrite;

fn fresh_rw(now: u64, queueable: usize) -> ReadWrite {
    ReadWrite {
        now,
        incoming_buffer: Vec::new(),
        expected_incoming_bytes: Some(0),
        read_bytes: 0,
        write_buffers: Vec::new(),
        write_bytes_queued: 0,
        write_bytes_queueable: Some(queueable),
        wake_up_after: None,
    }
}

fn pair() -> (Noise, Noise) {
    let k1 = [1u8; 32];
    let k2 = [2u8; 32];
    (Noise::new(&k1, &k2, true), Noise::new(&k2, &k1, false))
}

#[test]
fn record_round_trips_through_the_cipher() {
    let (mut a, mut b) = pair();
    let mut rw = fresh_rw(0, 4096);
    let pt: Vec<u8> = vec![5, 6, 7, 8, 9];
    a.encrypt_record(&mut rw, &pt).unwrap();
    let mut wire: Vec<u8> = Vec::new();
    for buf in rw.write_buffers.drain(..) {
        wire.extend(buf);
    }
    assert_eq!(wire.len(), pt.len() + 18);
    assert_ne!(&wire[2..2 + pt.len()], &pt[..]);

    let mut rw2 = fresh_rw(0, 0);
    rw2.incoming_buffer = wire;
    b.inject(&mut rw2).unwrap();
    assert_eq!(b.rx_data().clone(), pt);
    assert_eq!(rw2.incoming_buffer.len(), 0);
}

#[test]
fn corrupted_record_is_rejected() {
    let (mut a, mut b) = pair();
    let mut rw = fresh_rw(0, 4096);
    a.encrypt_record(&mut rw, &vec![1, 2, 3, 4]).unwrap();
    let mut wire: Vec<u8> = Vec::new();
    for buf in rw.write_buffers.drain(..) {
        wire.extend(buf);
    }
    let last = wire.len() - 1;
    wire[last] ^= 0x40;
    let mut rw2 = fresh_rw(0, 0);
    rw2.incoming_buffer = wire;
    assert!(b.inject(&mut rw2).is_err());
}

#[test]
fn partial_record_waits_for_more_bytes() {
    let (mut a, mut b) = pair();
    let mut rw = fresh_rw(0, 4096);
    a.encrypt_record(&mut rw, &vec![9; 10]).unwrap();
    let mut wire: Vec<u8> = Vec::new();
    for buf in rw.write_buffers.drain(..) {
        wire.extend(buf);
    }
    let (first, second) = wire.split_at(5);
    let mut rw2 = fresh_rw(0, 0);
    rw2.incoming_buffer = first.to_vec();
    b.inject(&mut rw2).unwrap();
    assert_eq!(b.rx_data().len(), 0);
    rw2.incoming_buffer.extend_from_slice(second);
    b.inject(&mut rw2).unwrap();
    assert_eq!(b.rx_data().clone(), vec![9; 10]);
}

#[test]
fn successive_ping_payloads_differ() {
    let mut rng = chacha20_from_seed(&[42u8; 32]);
    let first = chacha20_fill(&mut rng, 32);
    let second = chacha20_fill(&mut rng, 32);
    assert_eq!(first.len(), 32);
    assert_eq!(second.len(), 32);
    assert_ne!(first, second);

    let mut rng2 = chacha20_from_seed(&[42u8; 32]);
    let first_again = chacha20_fill(&mut rng2, 32);
    assert_eq!(first, first_again);
}
