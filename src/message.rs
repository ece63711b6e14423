//! The probe message exchanged between client and hub, and the hub's reply.

use vstd::prelude::*;
use crate::factor::{amplified_len, amplified_length, MUL_ONE};

verus! {

/// A probe (`ping`) or a reply (`pong`).
///
/// `mul_bits` is the payload amplification factor, as the bits of a single
/// precision number: the bits of 2.5 ask for a reply payload two and a half
/// times as long as the probe's.
pub struct MetronomeMessage {
    pub mode: String,
    pub payload: Option<Vec<u8>>,
    pub mul_bits: u32,
    pub seq: u64,
    pub key: String,
    pub sid: String,
}

/// The mathematical content of a message.
pub struct MessageView {
    pub mode: Seq<char>,
    pub payload: Option<Seq<u8>>,
    pub mul_bits: u32,
    pub seq: u64,
    pub key: Seq<char>,
    pub sid: Seq<char>,
}

/// The bytes of an optional payload.
pub open spec fn payload_view(p: Option<Vec<u8>>) -> Option<Seq<u8>> {
    match p {
        Some(v) => Some(v@),
        None => None,
    }
}

impl View for MetronomeMessage {
    type V = MessageView;

    open spec fn view(&self) -> MessageView {
        MessageView {
            mode: self.mode@,
            payload: payload_view(self.payload),
            mul_bits: self.mul_bits,
            seq: self.seq,
            key: self.key@,
            sid: self.sid@,
        }
    }
}

/// The reply payload: unchanged when `mul` is one, otherwise the first byte
/// of the probe payload repeated the amplified number of times (an empty
/// payload stays empty).
pub open spec fn pong_payload(payload: Option<Seq<u8>>, mul_bits: u32) -> Option<Seq<u8>> {
    match payload {
        Some(p) => if mul_bits == MUL_ONE {
            Some(p)
        } else {
            Some(Seq::new(amplified_len(p.len(), mul_bits) as nat, |i: int| p[0]))
        },
        None => None,
    }
}

/// The reply to a probe: mode `pong`, the reply payload, everything else kept.
pub open spec fn pong_of(m: MessageView) -> MessageView {
    MessageView {
        mode: "pong"@,
        payload: pong_payload(m.payload, m.mul_bits),
        mul_bits: m.mul_bits,
        seq: m.seq,
        key: m.key,
        sid: m.sid,
    }
}

/// Whether the reply payload of `m` can be held in memory.
pub open spec fn pong_fits(m: MessageView) -> bool {
    match m.payload {
        Some(p) => m.mul_bits == MUL_ONE || amplified_len(p.len(), m.mul_bits) <= usize::MAX,
        None => true,
    }
}

/// Whether `m` is a probe that the hub reflects.
pub open spec fn is_ping_view(m: MessageView) -> bool {
    m.mode == "ping"@
}

/// The hub's reply to `m`: present exactly for a probe whose reply fits.
pub open spec fn reply_of(m: MessageView) -> Option<MessageView> {
    if is_ping_view(m) && pong_fits(m) {
        Some(pong_of(m))
    } else {
        None
    }
}

/// `b` repeated `n` times.
fn repeat_byte(b: u8, n: usize) -> (r: Vec<u8>)
    ensures
        r@ == Seq::new(n as nat, |i: int| b),
{
    let mut r: Vec<u8> = Vec::new();
    for i in 0..n
        invariant
            r@ == Seq::new(i as nat, |j: int| b),
    {
        r.push(b);
        assert(r@ =~= Seq::new((i + 1) as nat, |j: int| b));
    }
    r
}

impl MetronomeMessage {
    /// Whether the reply payload of this message can be held in memory.
    pub fn pong_fits(&self) -> (r: bool)
        ensures
            r == pong_fits(self@),
    {
        match &self.payload {
            Some(p) => {
                if self.mul_bits == MUL_ONE {
                    true
                } else {
                    amplified_length(p.len(), self.mul_bits).is_some()
                }
            },
            None => true,
        }
    }

    /// Builds the reply to this message.
    pub fn get_pong(self) -> (r: MetronomeMessage)
        requires
            pong_fits(self@),
        ensures
            r@ == pong_of(self@),
    {
        let new_payload: Option<Vec<u8>> = match self.payload {
            Some(p) => {
                if self.mul_bits == MUL_ONE {
                    Some(p)
                } else if p.len() == 0 {
                    proof {
                        crate::factor::lemma_nothing_amplified(self.mul_bits);
                    }
                    let e: Vec<u8> = Vec::new();
                    assert(e@ =~= Seq::new(0, |i: int| p@[0]));
                    Some(e)
                } else {
                    match amplified_length(p.len(), self.mul_bits) {
                        Some(n) => Some(repeat_byte(p[0], n)),
                        None => None,
                    }
                }
            },
            None => None,
        };
        let mode = "pong".to_owned();
        proof {
            reveal_strlit("pong");
        }
        MetronomeMessage {
            mode,
            payload: new_payload,
            mul_bits: self.mul_bits,
            seq: self.seq,
            key: self.key,
            sid: self.sid,
        }
    }

    /// The client's probe: mode `ping`, a payload of `payload_size` bytes
    /// `X`, amplification factor with bits `mul_bits`, sequence number zero.
    pub fn probe(payload_size: usize, mul_bits: u32, key: String, sid: String) -> (r:
        MetronomeMessage)
        ensures
            r@.mode == "ping"@,
            r@.payload == Some(Seq::new(payload_size as nat, |i: int| 88u8)),
            r.mul_bits == mul_bits,
            r.seq == 0,
            r.key@ == key@,
            r.sid@ == sid@,
    {
        proof {
            reveal_strlit("ping");
        }
        MetronomeMessage {
            mode: "ping".to_owned(),
            payload: Some(repeat_byte(88u8, payload_size)),
            mul_bits,
            seq: 0,
            key,
            sid,
        }
    }

    /// Whether this message is a probe (mode `ping`).
    pub fn is_ping(&self) -> (r: bool)
        ensures
            r == is_ping_view(self@),
    {
        let ping = "ping".to_owned();
        self.mode == ping
    }

    /// Whether this message carries `key`.
    pub fn has_key(&self, key: &String) -> (r: bool)
        ensures
            r == (self.key@ == key@),
    {
        self.key == *key
    }

    /// Whether this message carries `key` and belongs to session `sid`.
    pub fn belongs_to(&self, key: &String, sid: &String) -> (r: bool)
        ensures
            r == (self.key@ == key@ && self.sid@ == sid@),
    {
        self.key == *key && self.sid == *sid
    }

    /// The hub's reply to this message: a `pong` for a probe whose reply
    /// fits in memory, nothing otherwise.
    pub fn reply(&self) -> (r: Option<MetronomeMessage>)
        ensures
            match r {
                Some(p) => reply_of(self@) == Some(p@),
                None => reply_of(self@).is_none(),
            },
    {
        if self.is_ping() && self.pong_fits() {
            let copy = self.clone_message();
            Some(copy.get_pong())
        } else {
            None
        }
    }

    /// A copy of this message.
    pub fn clone_message(&self) -> (r: MetronomeMessage)
        ensures
            r@ == self@,
    {
        let payload = match &self.payload {
            Some(p) => Some(p.clone()),
            None => None,
        };
        MetronomeMessage {
            mode: self.mode.clone(),
            payload,
            mul_bits: self.mul_bits,
            seq: self.seq,
            key: self.key.clone(),
            sid: self.sid.clone(),
        }
    }
}

/// Replying with a unit factor changes only the mode: payload, factor,
/// sequence number, key and session are those of the probe.
pub proof fn lemma_unit_pong_keeps_fields(m: MessageView)
    requires
        m.mul_bits == MUL_ONE,
    ensures
        pong_of(m).mode == "pong"@,
        pong_of(m).payload == m.payload,
        pong_of(m).mul_bits == m.mul_bits,
        pong_of(m).seq == m.seq,
        pong_of(m).key == m.key,
        pong_of(m).sid == m.sid,
{
}

/// With a factor `k`, the reply payload is `len * k` long, rounded down, and
/// when `k` is not one every byte of it is the first byte of the probe payload.
pub proof fn lemma_amplified_pong_payload(m: MessageView, p: Seq<u8>)
    requires
        m.payload == Some(p),
    ensures
        pong_of(m).payload is Some,
        pong_of(m).payload.unwrap().len() == amplified_len(p.len(), m.mul_bits),
        m.mul_bits != MUL_ONE ==> forall|i: int|
            0 <= i < pong_of(m).payload.unwrap().len() ==> pong_of(m).payload.unwrap()[i] == p[0],
{
    if m.mul_bits == MUL_ONE {
        crate::factor::lemma_unit_factor(p.len());
    } else {
        crate::factor::lemma_amplified_nonneg(p.len(), m.mul_bits);
    }
}

/// A parsed message with the size of the datagram it came in.
pub struct MessageWithSize {
    pub message_raw_size: usize,
    pub message: MetronomeMessage,
}

/// A parsed message with its size and its time of reception.
pub struct TimestampedMessage {
    pub timestamp: u64,
    pub message_with_size: MessageWithSize,
}

} // verus!
