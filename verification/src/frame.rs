//! The UBX frame layout: sync marker, class, id, little-endian payload
//! length, payload, and a two-byte Fletcher checksum over everything
//! between the marker and the checksum itself.

use vstd::prelude::*;

verus! {

/// First byte of the frame-start marker.
pub const SYNC_1: u8 = 0xb5;
/// Second byte of the frame-start marker.
pub const SYNC_2: u8 = 0x62;
/// Largest payload length the stream engine accepts; a header
/// declaring more is treated as malformed rather than buffered.
pub const MAX_PAYLOAD_LEN: u16 = 1240;

/// First Fletcher checksum byte of a byte sequence: the running sum
/// of the bytes, modulo 256.
pub open spec fn cka(s: Seq<u8>) -> u8
    decreases s.len(),
{
    if s.len() == 0 {
        0
    } else {
        (((cka(s.drop_last()) as int) + (s.last() as int)) % 256) as u8
    }
}

/// Second Fletcher checksum byte: the running sum of the first
/// checksum byte over every prefix, modulo 256.
pub open spec fn ckb(s: Seq<u8>) -> u8
    decreases s.len(),
{
    if s.len() == 0 {
        0
    } else {
        (((ckb(s.drop_last()) as int) + (cka(s) as int)) % 256) as u8
    }
}

/// A complete, checksum-validated protocol frame, identified by its
/// message class and message id.
pub struct Frame {
    pub class: u8,
    pub id: u8,
    pub payload: Vec<u8>,
}

/// The mathematical value of a [`Frame`].
#[verifier::ext_equal]
pub struct FrameView {
    pub class: u8,
    pub id: u8,
    pub payload: Seq<u8>,
}

impl View for Frame {
    type V = FrameView;

    open spec fn view(&self) -> FrameView {
        FrameView { class: self.class, id: self.id, payload: self.payload@ }
    }
}

/// Why a frame-shaped region of the stream was rejected.  A rejection
/// never ends the stream: the engine resynchronizes past the offending
/// marker and keeps scanning.
#[derive(Clone, Copy, Debug, PartialEq, Eq, Structural)]
pub enum DecodeError {
    /// The checksum trailing the payload does not match the frame body.
    BadChecksum,
    /// The header declares a payload longer than the engine accepts.
    OversizedPayload,
}

/// The payload length declared by a frame header starting at the front
/// of `s` (little endian).  Meaningful when `s.len() >= 6`.
pub open spec fn payload_len_of(s: Seq<u8>) -> int {
    s[4] + 256 * s[5]
}

/// The whole length of the frame starting at the front of `s`: marker,
/// class, id, length field, payload and checksum.
pub open spec fn frame_total_len(s: Seq<u8>) -> int {
    8 + payload_len_of(s)
}

/// `s` begins with the two-byte frame-start marker.
pub open spec fn has_sync(s: Seq<u8>) -> bool {
    s.len() >= 2 && s[0] == SYNC_1 && s[1] == SYNC_2
}

/// The checksum bytes trailing the frame at the front of `s` match the
/// Fletcher checksum of class, id, length field and payload.
/// Meaningful when `s.len() >= frame_total_len(s)`.
pub open spec fn checksum_ok(s: Seq<u8>) -> bool {
    let end = 6 + payload_len_of(s);
    cka(s.subrange(2, end)) == s[end] && ckb(s.subrange(2, end)) == s[end + 1]
}

/// The frame value carried by the frame at the front of `s`.
pub open spec fn frame_at(s: Seq<u8>) -> FrameView {
    FrameView { class: s[2], id: s[3], payload: s.subrange(6, 6 + payload_len_of(s)) }
}

/// `s` is exactly one frame-shaped region, nothing before or after it:
/// marker, header, a payload of the declared (and accepted) length, and
/// two trailing checksum bytes — right or wrong.
pub open spec fn frame_shaped(s: Seq<u8>) -> bool {
    &&& s.len() >= 8
    &&& has_sync(s)
    &&& payload_len_of(s) == s.len() - 8
    &&& payload_len_of(s) <= MAX_PAYLOAD_LEN
}

/// `s` is exactly one well-formed frame of class `class` and id `id`,
/// with nothing before or after it.
pub open spec fn sole_frame(s: Seq<u8>, class: u8, id: u8) -> bool {
    &&& frame_shaped(s)
    &&& s[2] == class
    &&& s[3] == id
    &&& checksum_ok(s)
}

/// Computes the Fletcher checksum of `v[from..to]`.
pub fn checksum(v: &[u8], from: usize, to: usize) -> (r: (u8, u8))
    requires
        from <= to <= v@.len(),
    ensures
        r.0 == cka(v@.subrange(from as int, to as int)),
        r.1 == ckb(v@.subrange(from as int, to as int)),
{
    let mut a: u8 = 0;
    let mut b: u8 = 0;
    let mut i: usize = from;
    while i < to
        invariant
            from <= i <= to <= v@.len(),
            a == cka(v@.subrange(from as int, i as int)),
            b == ckb(v@.subrange(from as int, i as int)),
        decreases to - i,
    {
        proof {
            let pre = v@.subrange(from as int, i as int);
            let cur = v@.subrange(from as int, i + 1);
            assert(cur.drop_last() =~= pre);
            assert(cur.last() == v@[i as int]);
        }
        a = (((a as u16) + (v[i] as u16)) % 256) as u8;
        b = (((b as u16) + (a as u16)) % 256) as u8;
        i = i + 1;
    }
    proof {
        assert(v@.subrange(from as int, to as int) =~= v@.subrange(from as int, i as int));
    }
    (a, b)
}

/// Encodes one frame: marker, class, id, little-endian payload length,
/// payload, and the Fletcher checksum of everything between marker and
/// checksum.  The result is exactly one well-formed frame.
pub fn encode_frame(class: u8, id: u8, payload: &[u8]) -> (r: Vec<u8>)
    requires
        payload@.len() <= MAX_PAYLOAD_LEN,
    ensures
        sole_frame(r@, class, id),
        frame_at(r@) == (FrameView { class, id, payload: payload@ }),
        r@.len() == payload@.len() + 8,
{
    let n = payload.len();
    let lo: u8 = (n % 256) as u8;
    let hi: u8 = (n / 256) as u8;
    let ghost header: Seq<u8> = seq![SYNC_1, SYNC_2, class, id, lo, hi];
    let mut v: Vec<u8> = Vec::new();
    v.push(SYNC_1);
    v.push(SYNC_2);
    v.push(class);
    v.push(id);
    v.push(lo);
    v.push(hi);
    proof {
        assert(v@ =~= header + payload@.take(0));
    }
    let mut i: usize = 0;
    while i < n
        invariant
            i <= n == payload@.len(),
            v@ == header + payload@.take(i as int),
        decreases n - i,
    {
        v.push(payload[i]);
        proof {
            assert(v@ =~= header + payload@.take(i + 1));
        }
        i = i + 1;
    }
    proof {
        assert(v@ =~= header + payload@);
    }
    let (a, b) = checksum(v.as_slice(), 2, v.len());
    let ghost body: Seq<u8> = v@;
    v.push(a);
    v.push(b);
    proof {
        vstd::arithmetic::div_mod::lemma_fundamental_div_mod(n as int, 256);
        assert(v@ =~= body + seq![a, b]);
        assert(v@.subrange(2, 6 + n) =~= body.subrange(2, 6 + n));
        assert(body.subrange(2, 6 + n) =~= body.subrange(2, body.len() as int));
        assert(v@.subrange(6, 6 + n) =~= payload@);
        assert(payload_len_of(v@) == n);
        assert(frame_at(v@) =~= (FrameView { class, id, payload: payload@ }));
    }
    v
}

} // verus!
