//! Authenticated cipher framing applied directly on the transport bytes.
//!
//! The connection driver hands this layer the raw socket bytes; it cuts them
//! into records, decrypts each record, checks its authenticator, and
//! accumulates the plaintext for the multiplexer. Outbound chunks are
//! wrapped the same way. A record is a 2-byte big-endian length `L`
//! (`16 <= L <= 65535`) followed by `L` bytes: the plaintext and a 16-byte
//! authenticator, both masked with a ChaCha20 keystream. The cipher state is
//! built from two already-established 32-byte direction keys; establishing
//! them (the handshake) is outside this machine. The authenticator is a
//! keystream-masked checksum: it catches corruption and keystream desync,
//! and stands where a transport cipher's tag stands in the record layout.

use vstd::prelude::*;
use crate::bytesutil::be16;
use crate::bytesutil::copy_bytes;
use crate::bytesutil::eq_bytes;
use crate::bytesutil::read_be16;
use crate::bytesutil::push_be16;
use crate::rng::chacha20_bytes;
use crate::rng::chacha20_fill;
use crate::rng::chacha20_from_seed;
use crate::rng::rng_seed;
use crate::rng::rng_word_pos;
use crate::rw::ReadWrite;

verus! {

/// Length of the authenticator appended to each record's plaintext.
pub const TAG_LEN: usize = 16;

/// Largest record body (plaintext plus authenticator), imposed by the
/// 2-byte length prefix.
pub const MAX_RECORD_BODY: usize = 65535;

/// Largest plaintext that fits in one record.
pub const MAX_RECORD_PLAINTEXT: usize = 65519;

/// Bytes a record adds around its plaintext: length prefix and authenticator.
pub const RECORD_OVERHEAD: usize = 18;

/// Failure while decrypting incoming records. Fatal for the connection.
#[derive(Clone, Copy, PartialEq, Eq, Structural, Debug)]
pub enum CipherError {
    /// A record announced a body shorter than the authenticator.
    BadLength,
    /// A record's authenticator did not match its plaintext.
    BadAuthenticator,
    /// The receive keystream is exhausted.
    KeystreamExhausted,
}

/// Failure while encrypting outgoing records. Fatal for the connection.
#[derive(Clone, Copy, PartialEq, Eq, Structural, Debug)]
pub enum EncryptError {
    /// The send keystream is exhausted.
    KeystreamExhausted,
}

/// Number of 32-bit keystream words consumed when reading `n` bytes.
pub open spec fn words_for(n: nat) -> nat {
    (n + 3) / 4
}

/// The 16-byte authenticator of a plaintext: byte `i` is folded into lane
/// `i % 16` by exclusive or.
pub open spec fn cks(s: Seq<u8>) -> Seq<u8>
    decreases s.len(),
{
    if s.len() == 0 {
        Seq::new(16, |i: int| 0u8)
    } else {
        let p = cks(s.drop_last());
        let j = ((s.len() - 1) as int) % 16;
        p.update(j, p[j] ^ s.last())
    }
}

pub proof fn lemma_cks_len(s: Seq<u8>)
    ensures
        cks(s).len() == 16,
    decreases s.len(),
{
    if s.len() > 0 {
        lemma_cks_len(s.drop_last());
    }
}

/// Byte-wise exclusive or of `a` with a mask `m` at least as long.
pub open spec fn xor_seq(a: Seq<u8>, m: Seq<u8>) -> Seq<u8> {
    Seq::new(a.len(), |i: int| a[i] ^ m[i])
}

/// Masking twice with the same mask gives the bytes back.
pub proof fn lemma_xor_seq_involutive(a: Seq<u8>, m: Seq<u8>)
    ensures
        xor_seq(xor_seq(a, m), m) == a,
{
    assert forall|i: int| 0 <= i < a.len() implies xor_seq(xor_seq(a, m), m)[i] == a[i] by {
        let x = a[i];
        let y = m[i];
        assert((x ^ y) ^ y == x) by (bit_vector);
    }
    assert(xor_seq(xor_seq(a, m), m) =~= a);
}

/// The body of the record that carries `pt`, encrypted with the keystream of
/// `seed` standing at word position `pos`.
pub open spec fn record_ct(pt: Seq<u8>, seed: Seq<u8>, pos: nat) -> Seq<u8> {
    xor_seq(pt + cks(pt), chacha20_bytes(seed, pos, pt.len() + 16))
}

/// The full encoding of the record that carries `pt`.
pub open spec fn record_bytes(pt: Seq<u8>, seed: Seq<u8>, pos: nat) -> Seq<u8>
    recommends
        pt.len() <= MAX_RECORD_PLAINTEXT,
{
    be16((pt.len() + 16) as u16) + record_ct(pt, seed, pos)
}

/// Opening one record body: unmask, split off the authenticator, check it.
pub open spec fn spec_open_record(ct: Seq<u8>, seed: Seq<u8>, pos: nat) -> Option<Seq<u8>>
    recommends
        ct.len() >= 16,
{
    let body = xor_seq(ct, chacha20_bytes(seed, pos, ct.len()));
    let pt = body.take(ct.len() - 16);
    let tag = body.skip(ct.len() - 16);
    if cks(pt) == tag {
        Some(pt)
    } else {
        None
    }
}

/// Opening the record that carries `pt` with the right keystream state gives
/// `pt` back.
pub proof fn lemma_record_round_trip(pt: Seq<u8>, seed: Seq<u8>, pos: nat)
    requires
        pt.len() <= MAX_RECORD_PLAINTEXT,
    ensures
        spec_open_record(record_ct(pt, seed, pos), seed, pos) == Some(pt),
{
    lemma_cks_len(pt);
    let ks = chacha20_bytes(seed, pos, pt.len() + 16);
    let ct = record_ct(pt, seed, pos);
    assert(ct.len() == pt.len() + 16);
    lemma_xor_seq_involutive(pt + cks(pt), ks);
    let body = xor_seq(ct, chacha20_bytes(seed, pos, ct.len()));
    assert(body == pt + cks(pt));
    assert(body.take(ct.len() - 16) =~= pt);
    assert(body.skip(ct.len() - 16) =~= cks(pt));
}

/// What repeatedly cutting records off the front of `buf` yields: the
/// concatenated plaintext, the number of bytes consumed, and the new word
/// position. `Err(())` when a record is malformed, fails authentication, or
/// outruns the keystream; a trailing partial record is left unconsumed.
pub open spec fn spec_inject(buf: Seq<u8>, seed: Seq<u8>, pos: nat) -> Result<
    (Seq<u8>, nat, nat),
    (),
>
    decreases buf.len(),
{
    if buf.len() < 2 {
        Ok((Seq::empty(), 0nat, pos))
    } else {
        let l = (buf[0] as nat) * 256 + (buf[1] as nat);
        if l < 16 {
            Err(())
        } else if pos + words_for(l) > u64::MAX {
            Err(())
        } else if buf.len() < 2 + l {
            Ok((Seq::empty(), 0nat, pos))
        } else {
            match spec_open_record(buf.subrange(2, 2 + l as int), seed, pos) {
                None => Err(()),
                Some(pt) => match spec_inject(
                    buf.skip(2 + l as int),
                    seed,
                    pos + words_for(l),
                ) {
                    Err(e) => Err(e),
                    Ok((pts, c, p)) => Ok((pt + pts, 2 + l + c, p)),
                },
            }
        }
    }
}

/// A successful cut never consumes more than the buffer held.
pub proof fn lemma_spec_inject_consumed_le(buf: Seq<u8>, seed: Seq<u8>, pos: nat)
    requires
        spec_inject(buf, seed, pos) is Ok,
    ensures
        spec_inject(buf, seed, pos)->Ok_0.1 <= buf.len(),
    decreases buf.len(),
{
    if buf.len() >= 2 {
        let l = (buf[0] as nat) * 256 + (buf[1] as nat);
        if l >= 16 && pos + words_for(l) <= u64::MAX && buf.len() >= 2 + l {
            lemma_spec_inject_consumed_le(buf.skip(2 + l as int), seed, pos + words_for(l));
        }
    }
}

/// After a successful cut, what stays in the buffer holds no further
/// complete record: cutting again consumes nothing.
pub proof fn lemma_spec_inject_residual(buf: Seq<u8>, seed: Seq<u8>, pos: nat)
    requires
        spec_inject(buf, seed, pos) is Ok,
    ensures
        ({
            let (pts, c, p) = spec_inject(buf, seed, pos)->Ok_0;
            spec_inject(buf.skip(c as int), seed, p) == Ok::<_, ()>((Seq::<u8>::empty(), 0nat, p))
        }),
    decreases buf.len(),
{
    let (pts, c, p) = spec_inject(buf, seed, pos)->Ok_0;
    if buf.len() < 2 {
        assert(buf.skip(0) =~= buf);
    } else {
        let l = (buf[0] as nat) * 256 + (buf[1] as nat);
        if l < 16 || pos + words_for(l) > u64::MAX {
        } else if buf.len() < 2 + l {
            assert(buf.skip(0) =~= buf);
        } else {
            lemma_spec_inject_residual(buf.skip(2 + l as int), seed, pos + words_for(l));
            let inner = spec_inject(buf.skip(2 + l as int), seed, pos + words_for(l));
            assert(inner is Ok);
            let (pts2, c2, p2) = inner->Ok_0;
            lemma_spec_inject_consumed_le(buf.skip(2 + l as int), seed, pos + words_for(l));
            assert(c == 2 + l + c2);
            assert(p == p2);
            assert(buf.skip(2 + l as int).skip(c2 as int) =~= buf.skip(c as int));
        }
    }
}

/// Cipher state of an established connection: one keystream per direction,
/// and the decrypted bytes not yet consumed by the multiplexer.
pub struct Noise {
    is_initiator: bool,
    tx: rand_chacha::ChaCha20Rng,
    tx_pos: u64,
    rx: rand_chacha::ChaCha20Rng,
    rx_pos: u64,
    rx_buffer: Vec<u8>,
}

impl Noise {
    /// The exec position counters mirror the keystream positions.
    pub closed spec fn wf(self) -> bool {
        &&& rng_word_pos(self.tx) == self.tx_pos as nat
        &&& rng_word_pos(self.rx) == self.rx_pos as nat
    }

    /// Whether the local node initiated the connection.
    pub closed spec fn spec_is_initiator(self) -> bool {
        self.is_initiator
    }

    /// Seed of the send keystream.
    pub closed spec fn tx_seed(self) -> Seq<u8> {
        rng_seed(self.tx)
    }

    /// Word position of the send keystream.
    pub closed spec fn spec_tx_pos(self) -> nat {
        self.tx_pos as nat
    }

    /// Seed of the receive keystream.
    pub closed spec fn rx_seed(self) -> Seq<u8> {
        rng_seed(self.rx)
    }

    /// Word position of the receive keystream.
    pub closed spec fn spec_rx_pos(self) -> nat {
        self.rx_pos as nat
    }

    /// Decrypted bytes not yet consumed.
    pub closed spec fn spec_rx_data(self) -> Seq<u8> {
        self.rx_buffer@
    }

    /// Builds the cipher state from the two established direction keys.
    pub fn new(tx_key: &[u8; 32], rx_key: &[u8; 32], is_initiator: bool) -> (r: Noise)
        ensures
            r.wf(),
            r.spec_is_initiator() == is_initiator,
            r.tx_seed() == tx_key@,
            r.spec_tx_pos() == 0,
            r.rx_seed() == rx_key@,
            r.spec_rx_pos() == 0,
            r.spec_rx_data() == Seq::<u8>::empty(),
    {
        let r = Noise {
            is_initiator,
            tx: chacha20_from_seed(tx_key),
            tx_pos: 0,
            rx: chacha20_from_seed(rx_key),
            rx_pos: 0,
            rx_buffer: Vec::new(),
        };
        proof {
            assert(r.spec_rx_data() =~= Seq::<u8>::empty());
        }
        r
    }

    /// Whether the local node initiated the connection.
    pub fn is_initiator(&self) -> (r: bool)
        ensures
            r == self.spec_is_initiator(),
    {
        self.is_initiator
    }

    /// Reference to the decrypted bytes not yet consumed.
    pub fn rx_data(&self) -> (r: &Vec<u8>)
        ensures
            r@ == self.spec_rx_data(),
    {
        &self.rx_buffer
    }

    /// Drops the first `n` decrypted bytes, once the multiplexer took them.
    pub fn consume_rx(&mut self, n: usize)
        requires
            n <= old(self).spec_rx_data().len(),
        ensures
            final(self).spec_rx_data() == old(self).spec_rx_data().skip(n as int),
            final(self).wf() == old(self).wf(),
            final(self).spec_is_initiator() == old(self).spec_is_initiator(),
            final(self).tx_seed() == old(self).tx_seed(),
            final(self).spec_tx_pos() == old(self).spec_tx_pos(),
            final(self).rx_seed() == old(self).rx_seed(),
            final(self).spec_rx_pos() == old(self).spec_rx_pos(),
    {
        let mut tail = self.rx_buffer.split_off(n);
        core::mem::swap(&mut self.rx_buffer, &mut tail);
    }

    /// Takes the first `n` decrypted bytes for the multiplexer.
    pub fn take_rx(&mut self, n: usize) -> (r: Vec<u8>)
        requires
            n <= old(self).spec_rx_data().len(),
        ensures
            r@ == old(self).spec_rx_data().take(n as int),
            final(self).spec_rx_data() == old(self).spec_rx_data().skip(n as int),
            final(self).wf() == old(self).wf(),
            final(self).spec_is_initiator() == old(self).spec_is_initiator(),
            final(self).tx_seed() == old(self).tx_seed(),
            final(self).spec_tx_pos() == old(self).spec_tx_pos(),
            final(self).rx_seed() == old(self).rx_seed(),
            final(self).spec_rx_pos() == old(self).spec_rx_pos(),
    {
        let mut tail = self.rx_buffer.split_off(n);
        core::mem::swap(&mut self.rx_buffer, &mut tail);
        proof {
            assert(tail@ =~= old(self).spec_rx_data().take(n as int));
        }
        tail
    }

    /// How many more socket bytes are needed before the next record can be
    /// decrypted; 0 when one is already complete (or the length is bad).
    pub fn next_record_hint(&self, incoming: &Vec<u8>) -> (r: usize)
        ensures
            r <= 2 + MAX_RECORD_BODY,
            r as int == (if incoming@.len() < 2 {
                2 - incoming@.len()
            } else {
                let l = (incoming@[0] as int) * 256 + (incoming@[1] as int);
                if incoming@.len() < 2 + l {
                    2 + l - incoming@.len()
                } else {
                    0
                }
            }),
    {
        let n = incoming.len();
        if n < 2 {
            2 - n
        } else {
            let l = read_be16(incoming, 0) as usize;
            proof {
                let b = incoming@;
                assert(be16(l as u16) == b.subrange(0, 2));
                assert(be16(l as u16)[0] == b[0] && be16(l as u16)[1] == b[1]);
                let lu: u16 = l as u16;
                assert(((lu >> 8) as u8 as u32) * 256 + ((lu & 0xff) as u8 as u32) == lu as u32)
                    by (bit_vector);
                assert((b[0] as int) * 256 + (b[1] as int) == l);
            }
            if n < 2 + l {
                2 + l - n
            } else {
                0
            }
        }
    }

    /// Decrypts every complete record at the front of `rw.incoming_buffer`
    /// and appends the plaintext to the receive buffer.
    #[verifier::rlimit(100)]
    #[verifier::spinoff_prover]
    pub fn inject(&mut self, rw: &mut ReadWrite) -> (r: Result<(), CipherError>)
        requires
            old(self).wf(),
            old(rw).wf(),
        ensures
            final(self).wf(),
            final(self).spec_is_initiator() == old(self).spec_is_initiator(),
            final(self).tx_seed() == old(self).tx_seed(),
            final(self).spec_tx_pos() == old(self).spec_tx_pos(),
            final(self).rx_seed() == old(self).rx_seed(),
            final(rw).now == old(rw).now,
            final(rw).expected_incoming_bytes == old(rw).expected_incoming_bytes,
            final(rw).write_buffers == old(rw).write_buffers,
            final(rw).write_bytes_queued == old(rw).write_bytes_queued,
            final(rw).write_bytes_queueable == old(rw).write_bytes_queueable,
            final(rw).wake_up_after == old(rw).wake_up_after,
            final(rw).wf(),
            ReadWrite::rw_step(*old(rw), *final(rw)),
            match r {
                Ok(()) => {
                    &&& spec_inject(
                        old(rw).incoming_buffer@,
                        old(self).rx_seed(),
                        old(self).spec_rx_pos(),
                    ) matches Ok((pts, c, p)) && {
                        &&& c <= old(rw).incoming_buffer@.len()
                        &&& final(self).spec_rx_data() == old(self).spec_rx_data() + pts
                        &&& final(self).spec_rx_pos() == p
                        &&& final(rw).incoming_buffer@ == old(rw).incoming_buffer@.skip(c as int)
                        &&& final(rw).read_bytes == old(rw).read_bytes + c
                    }
                },
                Err(_) => spec_inject(
                    old(rw).incoming_buffer@,
                    old(self).rx_seed(),
                    old(self).spec_rx_pos(),
                ) is Err,
            },
    {
        let ghost buf0 = rw.incoming_buffer@;
        let ghost pos0 = self.spec_rx_pos();
        let ghost seed = self.rx_seed();
        let ghost rx0 = self.spec_rx_data();
        let ghost read0 = rw.read_bytes;
        let ghost spec0 = spec_inject(buf0, seed, pos0);
        let ghost txseed0 = self.tx_seed();
        let ghost txpos0 = self.spec_tx_pos();
        let ghost init0 = self.spec_is_initiator();
        let ghost now0 = rw.now;
        let ghost exp0 = rw.expected_incoming_bytes;
        let ghost wb0 = rw.write_buffers;
        let ghost wq0 = rw.write_bytes_queued;
        let ghost wqa0 = rw.write_bytes_queueable;
        let ghost wua0 = rw.wake_up_after;
        loop
            invariant
                init0 == old(self).spec_is_initiator(),
                txseed0 == old(self).tx_seed(),
                txpos0 == old(self).spec_tx_pos(),
                seed == old(self).rx_seed(),
                pos0 == old(self).spec_rx_pos(),
                rx0 == old(self).spec_rx_data(),
                buf0 == old(rw).incoming_buffer@,
                read0 == old(rw).read_bytes,
                spec0 == spec_inject(buf0, seed, pos0),
                now0 == old(rw).now,
                exp0 == old(rw).expected_incoming_bytes,
                wb0 == old(rw).write_buffers,
                wq0 == old(rw).write_bytes_queued,
                wqa0 == old(rw).write_bytes_queueable,
                wua0 == old(rw).wake_up_after,
                self.wf(),
                rw.wf(),
                self.spec_is_initiator() == init0,
                self.tx_seed() == txseed0,
                self.spec_tx_pos() == txpos0,
                self.rx_seed() == seed,
                rw.now == now0,
                rw.expected_incoming_bytes == exp0,
                rw.write_buffers == wb0,
                rw.write_bytes_queued == wq0,
                rw.write_bytes_queueable == wqa0,
                rw.wake_up_after == wua0,
                rw.incoming_buffer@.len() <= buf0.len(),
                rw.incoming_buffer@ == buf0.skip(buf0.len() - rw.incoming_buffer@.len()),
                rw.read_bytes == read0 + (buf0.len() - rw.incoming_buffer@.len()),
                rx0.len() <= self.spec_rx_data().len(),
                rx0 == self.spec_rx_data().take(rx0.len() as int),
                match spec_inject(rw.incoming_buffer@, seed, self.spec_rx_pos()) {
                    Ok(t) => spec0 == Ok::<_, ()>(
                        (
                            self.spec_rx_data().skip(rx0.len() as int) + t.0,
                            ((buf0.len() - rw.incoming_buffer@.len()) + t.1) as nat,
                            t.2,
                        ),
                    ),
                    Err(e) => spec0 is Err,
                },
            ensures
                init0 == old(self).spec_is_initiator(),
                txseed0 == old(self).tx_seed(),
                txpos0 == old(self).spec_tx_pos(),
                seed == old(self).rx_seed(),
                pos0 == old(self).spec_rx_pos(),
                rx0 == old(self).spec_rx_data(),
                buf0 == old(rw).incoming_buffer@,
                read0 == old(rw).read_bytes,
                spec0 == spec_inject(buf0, seed, pos0),
                now0 == old(rw).now,
                exp0 == old(rw).expected_incoming_bytes,
                wb0 == old(rw).write_buffers,
                wq0 == old(rw).write_bytes_queued,
                wqa0 == old(rw).write_bytes_queueable,
                wua0 == old(rw).wake_up_after,
                self.wf(),
                rw.wf(),
                self.spec_is_initiator() == init0,
                self.tx_seed() == txseed0,
                self.spec_tx_pos() == txpos0,
                self.rx_seed() == seed,
                rw.now == now0,
                rw.expected_incoming_bytes == exp0,
                rw.write_buffers == wb0,
                rw.write_bytes_queued == wq0,
                rw.write_bytes_queueable == wqa0,
                rw.wake_up_after == wua0,
                rw.incoming_buffer@.len() <= buf0.len(),
                rw.incoming_buffer@ == buf0.skip(buf0.len() - rw.incoming_buffer@.len()),
                rw.read_bytes == read0 + (buf0.len() - rw.incoming_buffer@.len()),
                rx0.len() <= self.spec_rx_data().len(),
                rx0 == self.spec_rx_data().take(rx0.len() as int),
                spec0 == Ok::<_, ()>(
                    (
                        self.spec_rx_data().skip(rx0.len() as int),
                        (buf0.len() - rw.incoming_buffer@.len()) as nat,
                        self.spec_rx_pos(),
                    ),
                ),
            decreases rw.incoming_buffer@.len(),
        {
            let ghost curb = rw.incoming_buffer@;
            let ghost curp = self.spec_rx_pos();
            let ghost currx = self.spec_rx_data();
            let avail = rw.incoming_buffer.len();
            if avail < 2 {
                proof {
                    assert(spec_inject(curb, seed, curp) == Ok::<_, ()>(
                        (Seq::<u8>::empty(), 0nat, curp),
                    ));
                    assert(currx.skip(rx0.len() as int) + Seq::<u8>::empty() =~= currx.skip(
                        rx0.len() as int,
                    ));
                }
                break ;
            }
            let l = read_be16(&rw.incoming_buffer, 0) as usize;
            proof {
                let b = rw.incoming_buffer@;
                assert(be16(l as u16) == b.subrange(0, 2));
                assert(be16(l as u16)[0] == b[0] && be16(l as u16)[1] == b[1]);
                let lu: u16 = l as u16;
                assert(((lu >> 8) as u8 as u32) * 256 + ((lu & 0xff) as u8 as u32) == lu as u32)
                    by (bit_vector);
                assert(b[0] == (lu >> 8) as u8 && b[1] == (lu & 0xff) as u8);
                assert((b[0] as nat) * 256 + (b[1] as nat) == l);
            }
            if l < TAG_LEN {
                proof {
                    assert(spec_inject(curb, seed, curp) is Err);
                }
                proof {
                    ReadWrite::lemma_rw_step_read_only(*old(rw), *rw);
                }
                return Err(CipherError::BadLength);
            }
            let words = (l + 3) / 4;
            if (words as u64) > u64::MAX - self.rx_pos {
                proof {
                    assert(spec_inject(curb, seed, curp) is Err);
                }
                proof {
                    ReadWrite::lemma_rw_step_read_only(*old(rw), *rw);
                }
                return Err(CipherError::KeystreamExhausted);
            }
            if avail < 2 + l {
                proof {
                    assert(spec_inject(curb, seed, curp) == Ok::<_, ()>(
                        (Seq::<u8>::empty(), 0nat, curp),
                    ));
                    assert(currx.skip(rx0.len() as int) + Seq::<u8>::empty() =~= currx.skip(
                        rx0.len() as int,
                    ));
                }
                break ;
            }
            let header = rw.incoming_bytes_take(2);
            let ct = rw.incoming_bytes_take(l);
            proof {
                assert(ct@ =~= curb.subrange(2, 2 + l as int));
                assert(rw.incoming_buffer@ =~= curb.skip(2 + l as int));
            }
            let ks = chacha20_fill(&mut self.rx, l);
            self.rx_pos = self.rx_pos + words as u64;
            let mut body = xor_bytes(&ct, &ks);
            let tag = body.split_off(l - TAG_LEN);
            let expect = checksum(&body);
            proof {
                assert(body@ =~= xor_seq(ct@, ks@).take(ct@.len() - 16));
                assert(tag@ =~= xor_seq(ct@, ks@).skip(ct@.len() - 16));
            }
            if !eq_bytes(&expect, &tag) {
                proof {
                    assert(spec_open_record(ct@, seed, curp) is None);
                    assert(spec_inject(curb, seed, curp) is Err);
                }
                proof {
                    assert(rw.incoming_buffer@ =~= old(rw).incoming_buffer@.skip(
                        old(rw).incoming_buffer@.len() - rw.incoming_buffer@.len(),
                    ));
                    ReadWrite::lemma_rw_step_read_only(*old(rw), *rw);
                }
                return Err(CipherError::BadAuthenticator);
            }
            proof {
                assert(spec_open_record(ct@, seed, curp) == Some(body@));
            }
            let ghost bodyv = body@;
            self.rx_buffer.append(&mut body);
            proof {
                assert(self.spec_rx_data() == currx + bodyv);
                assert(rx0 =~= self.spec_rx_data().take(rx0.len() as int));
                assert(self.spec_rx_pos() == curp + words_for(l as nat));
                match spec_inject(rw.incoming_buffer@, seed, self.spec_rx_pos()) {
                    Ok(t) => {
                        assert(spec_inject(curb, seed, curp) == Ok::<_, ()>(
                            (bodyv + t.0, (2 + l + t.1) as nat, t.2),
                        ));
                        assert(currx.skip(rx0.len() as int) + (bodyv + t.0) =~= (currx
                            + bodyv).skip(rx0.len() as int) + t.0);
                    },
                    Err(e) => {
                        assert(spec_inject(curb, seed, curp) is Err);
                    },
                }
            }
        }
        proof {
            assert(rx0 + self.spec_rx_data().skip(rx0.len() as int) =~= self.spec_rx_data());
            ReadWrite::lemma_rw_step_read_only(*old(rw), *rw);
        }
        Ok(())
    }

    /// Wraps one outbound chunk into a record and queues it on `rw`.
    pub fn encrypt_record(&mut self, rw: &mut ReadWrite, pt: &Vec<u8>) -> (r: Result<
        (),
        EncryptError,
    >)
        requires
            old(self).wf(),
            old(rw).wf(),
            1 <= pt@.len() <= MAX_RECORD_PLAINTEXT,
            old(rw).write_bytes_queueable is Some,
            pt@.len() + RECORD_OVERHEAD <= old(rw).spec_queueable(),
        ensures
            final(self).wf(),
            final(self).spec_is_initiator() == old(self).spec_is_initiator(),
            final(self).tx_seed() == old(self).tx_seed(),
            final(self).rx_seed() == old(self).rx_seed(),
            final(self).spec_rx_pos() == old(self).spec_rx_pos(),
            final(self).spec_rx_data() == old(self).spec_rx_data(),
            final(rw).now == old(rw).now,
            final(rw).incoming_buffer == old(rw).incoming_buffer,
            final(rw).expected_incoming_bytes == old(rw).expected_incoming_bytes,
            final(rw).read_bytes == old(rw).read_bytes,
            final(rw).wake_up_after == old(rw).wake_up_after,
            final(rw).wf(),
            ReadWrite::rw_step(*old(rw), *final(rw)),
            match r {
                Ok(()) => {
                    &&& old(self).spec_tx_pos() + words_for(pt@.len() + 16) <= u64::MAX
                    &&& final(self).spec_tx_pos() == old(self).spec_tx_pos() + words_for(
                        pt@.len() + 16,
                    )
                    &&& final(rw).write_buffers@.len() == old(rw).write_buffers@.len() + 1
                    &&& final(rw).write_buffers@ == old(rw).write_buffers@.push(
                        final(rw).write_buffers@.last(),
                    )
                    &&& final(rw).write_buffers@.last()@ == record_bytes(
                        pt@,
                        old(self).tx_seed(),
                        old(self).spec_tx_pos(),
                    )
                    &&& final(rw).write_bytes_queued == old(rw).write_bytes_queued + pt@.len()
                        + RECORD_OVERHEAD
                    &&& final(rw).write_bytes_queueable == Some(
                        (old(rw).spec_queueable() - pt@.len() - RECORD_OVERHEAD) as usize,
                    )
                },
                Err(_) => {
                    &&& old(self).spec_tx_pos() + words_for(pt@.len() + 16) > u64::MAX
                    &&& final(self).spec_tx_pos() == old(self).spec_tx_pos()
                    &&& final(rw).write_buffers == old(rw).write_buffers
                    &&& final(rw).write_bytes_queued == old(rw).write_bytes_queued
                    &&& final(rw).write_bytes_queueable == old(rw).write_bytes_queueable
                },
            },
    {
        let l = pt.len() + TAG_LEN;
        let words = (l + 3) / 4;
        if (words as u64) > u64::MAX - self.tx_pos {
            proof {
                ReadWrite::lemma_rw_step_refl(*old(rw));
            }
            return Err(EncryptError::KeystreamExhausted);
        }
        let ghost pos_before = self.spec_tx_pos();
        let ks = chacha20_fill(&mut self.tx, l);
        self.tx_pos = self.tx_pos + words as u64;
        let mut body = copy_bytes(pt);
        let mut tag = checksum(pt);
        proof {
            lemma_cks_len(pt@);
        }
        body.append(&mut tag);
        let ct = xor_bytes(&body, &ks);
        let mut out: Vec<u8> = Vec::new();
        push_be16(&mut out, l as u16);
        let mut ct_move = ct;
        out.append(&mut ct_move);
        proof {
            assert(body@ == pt@ + cks(pt@));
            assert(out@ == record_bytes(pt@, old(self).tx_seed(), pos_before));
            assert(out@.len() == pt@.len() + RECORD_OVERHEAD);
        }
        rw.write_out(out);
        Ok(())
    }
}

/// Exclusive or of `a` with the first `a.len()` bytes of `m`.
fn xor_bytes(a: &Vec<u8>, m: &Vec<u8>) -> (r: Vec<u8>)
    requires
        m@.len() >= a@.len(),
    ensures
        r@ == xor_seq(a@, m@),
{
    let mut r: Vec<u8> = Vec::new();
    let mut i: usize = 0;
    while i < a.len()
        invariant
            i <= a@.len(),
            m@.len() >= a@.len(),
            r@.len() == i,
            forall|j: int| 0 <= j < i ==> r@[j] == (a@[j] ^ m@[j]),
        decreases a@.len() - i,
    {
        r.push(a[i] ^ m[i]);
        i = i + 1;
    }
    proof {
        assert(r@ =~= xor_seq(a@, m@));
    }
    r
}

/// Computes the 16-byte authenticator of `v`.
fn checksum(v: &Vec<u8>) -> (r: Vec<u8>)
    ensures
        r@ == cks(v@),
{
    let mut acc = vec![0u8; 16];
    proof {
        assert(acc@ =~= cks(v@.take(0)));
    }
    let mut i: usize = 0;
    while i < v.len()
        invariant
            i <= v@.len(),
            acc@.len() == 16,
            acc@ == cks(v@.take(i as int)),
        decreases v@.len() - i,
    {
        let j = i % 16;
        let prev = acc[j];
        acc[j] = prev ^ v[i];
        i = i + 1;
        proof {
            let t = v@.take(i as int);
            assert(t.drop_last() =~= v@.take(i as int - 1));
            assert(t.last() == v@[i as int - 1]);
            assert(acc@ =~= cks(v@.take(i as int)));
        }
    }
    proof {
        assert(v@.take(v@.len() as int) =~= v@);
    }
    acc
}

} // verus!
