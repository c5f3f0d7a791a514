//! The frame consumption engine: a stateful accumulator of
//! not-yet-framed bytes.  Arbitrary-sized chunks are appended with
//! [`FrameParser::consume`]; complete frames (or decode failures) are
//! pulled out with [`FrameParser::try_next`] as they become available.
//! Bytes of an incomplete trailing frame are retained for the next
//! chunk, so frames split across read boundaries are still reassembled.

use vstd::prelude::*;

use crate::frame::checksum;
use crate::frame::checksum_ok;
use crate::frame::frame_at;
use crate::frame::frame_total_len;
use crate::frame::payload_len_of;
use crate::frame::DecodeError;
use crate::frame::Frame;
use crate::frame::FrameView;
use crate::frame::MAX_PAYLOAD_LEN;
use crate::frame::SYNC_1;
use crate::frame::SYNC_2;

verus! {

/// One element of the stream of decode results: a frame, or the reason
/// a frame-shaped region was rejected.
pub type DecodeItem = Result<FrameView, DecodeError>;

/// What one scan over pending bytes `s` produces: the next decode
/// result if one is available, and the bytes still pending afterwards.
///
/// Bytes before the first possible frame start are skipped silently;
/// a marker whose frame is not yet complete defers (`None`) and retains
/// everything from the marker on; a malformed frame yields an error and
/// resynchronizes just past the marker.
pub open spec fn next_result(s: Seq<u8>) -> (Option<DecodeItem>, Seq<u8>)
    decreases s.len(),
{
    if s.len() == 0 {
        (None, s)
    } else if s[0] != SYNC_1 {
        next_result(s.skip(1))
    } else if s.len() < 2 {
        (None, s)
    } else if s[1] != SYNC_2 {
        next_result(s.skip(1))
    } else if s.len() < 6 {
        (None, s)
    } else if payload_len_of(s) > MAX_PAYLOAD_LEN {
        (Some(Err(DecodeError::OversizedPayload)), s.skip(2))
    } else if s.len() < frame_total_len(s) {
        (None, s)
    } else if checksum_ok(s) {
        (Some(Ok(frame_at(s))), s.skip(frame_total_len(s)))
    } else {
        (Some(Err(DecodeError::BadChecksum)), s.skip(2))
    }
}

/// Whenever a scan yields a result, the pending bytes strictly shrink;
/// they never grow.
pub proof fn lemma_next_shrinks(s: Seq<u8>)
    ensures
        next_result(s).0 is Some ==> next_result(s).1.len() < s.len(),
        next_result(s).1.len() <= s.len(),
    decreases s.len(),
{
    if s.len() == 0 {
    } else if s[0] != SYNC_1 || (s.len() >= 2 && s[1] != SYNC_2) {
        lemma_next_shrinks(s.skip(1));
    }
}

/// After a scan yields no result, scanning the retained bytes again
/// yields no result and retains them unchanged.
proof fn lemma_next_quiescent(s: Seq<u8>)
    ensures
        next_result(s).0 is None ==> next_result(next_result(s).1) == (
            None::<DecodeItem>,
            next_result(s).1,
        ),
    decreases s.len(),
{
    if s.len() == 0 {
    } else if s[0] != SYNC_1 || (s.len() >= 2 && s[1] != SYNC_2) {
        lemma_next_quiescent(s.skip(1));
    }
}

/// A decision the scan makes on `s` stands when more bytes arrive:
/// an emitted result is emitted unchanged from `s + t`, and a deferral
/// on `s` makes the scan of `s + t` the scan of the retained bytes
/// followed by `t`.
pub proof fn lemma_next_extend(s: Seq<u8>, t: Seq<u8>)
    ensures
        next_result(s).0 is Some ==> next_result(s + t) == (
            next_result(s).0,
            next_result(s).1 + t,
        ),
        next_result(s).0 is None ==> next_result(s + t) == next_result(next_result(s).1 + t),
    decreases s.len(),
{
    if s.len() == 0 {
        assert(s + t =~= next_result(s).1 + t);
    } else if s[0] != SYNC_1 || (s.len() >= 2 && s[1] != SYNC_2) {
        assert((s + t).skip(1) =~= s.skip(1) + t);
        lemma_next_extend(s.skip(1), t);
    } else if s.len() < 2 || s.len() < 6 {
        // deferral: retained bytes are exactly `s`
    } else if payload_len_of(s) > MAX_PAYLOAD_LEN {
        assert((s + t).skip(2) =~= s.skip(2) + t);
    } else if s.len() < frame_total_len(s) {
        // deferral: retained bytes are exactly `s`
    } else {
        let end = 6 + payload_len_of(s);
        assert((s + t).subrange(2, end) =~= s.subrange(2, end));
        assert(payload_len_of(s + t) == payload_len_of(s));
        assert(checksum_ok(s + t) == checksum_ok(s));
        if checksum_ok(s) {
            assert((s + t).subrange(6, end) =~= s.subrange(6, end));
            assert(frame_at(s + t) =~= frame_at(s));
            assert((s + t).skip(frame_total_len(s)) =~= s.skip(frame_total_len(s)) + t);
        } else {
            assert((s + t).skip(2) =~= s.skip(2) + t);
        }
    }
}

/// All decode results available from pending bytes `s` when no more
/// bytes arrive, and the bytes retained after extracting them: at most
/// an incomplete trailing partial frame.
pub open spec fn drained(s: Seq<u8>) -> (Seq<DecodeItem>, Seq<u8>)
    decreases s.len(),
{
    let (r, p) = next_result(s);
    match r {
        Some(x) => {
            proof {
                lemma_next_shrinks(s);
            }
            let (rs, q) = drained(p);
            (seq![x] + rs, q)
        },
        None => (Seq::empty(), p),
    }
}

/// Chunk-boundary independence: draining a stream fed in two pieces
/// yields exactly the results and retained bytes of draining the
/// retained bytes of the first piece followed by the second.
pub proof fn lemma_drained_append(s: Seq<u8>, t: Seq<u8>)
    ensures
        drained(s + t).0 == drained(s).0 + drained(drained(s).1 + t).0,
        drained(s + t).1 == drained(drained(s).1 + t).1,
    decreases s.len(),
{
    let (r, p) = next_result(s);
    lemma_next_extend(s, t);
    match r {
        Some(x) => {
            lemma_next_shrinks(s);
            lemma_drained_append(p, t);
            assert(drained(s + t).0 =~= drained(s).0 + drained(drained(s).1 + t).0);
        },
        None => {
            assert(next_result(s + t) == next_result(p + t));
            assert(drained(s + t) == drained(p + t)) by {
                let (r2, p2) = next_result(p + t);
                match r2 {
                    Some(_) => {
                        assert(drained(s + t).0 == seq![r2->Some_0] + drained(p2).0);
                        assert(drained(p + t).0 == seq![r2->Some_0] + drained(p2).0);
                        assert(drained(s + t).1 == drained(p2).1);
                        assert(drained(p + t).1 == drained(p2).1);
                    },
                    None => {
                        assert(drained(s + t) == (Seq::<DecodeItem>::empty(), p2));
                        assert(drained(p + t) == (Seq::<DecodeItem>::empty(), p2));
                    },
                }
            }
            assert(drained(s + t).0 =~= drained(s).0 + drained(drained(s).1 + t).0);
        },
    }
}

/// Draining is exhaustive: the bytes retained after a drain hold no
/// further result — at most an incomplete trailing partial frame, which
/// a second drain leaves untouched.
pub proof fn lemma_drain_exhaustive(s: Seq<u8>)
    ensures
        drained(drained(s).1).0 == Seq::<DecodeItem>::empty(),
        drained(drained(s).1).1 == drained(s).1,
    decreases s.len(),
{
    let (r, p) = next_result(s);
    match r {
        Some(_) => {
            lemma_next_shrinks(s);
            lemma_drain_exhaustive(p);
        },
        None => {
            lemma_next_quiescent(s);
        },
    }
}

/// The whole byte stream carried by a sequence of chunks.
pub open spec fn concat_all(chunks: Seq<Seq<u8>>) -> Seq<u8>
    decreases chunks.len(),
{
    if chunks.len() == 0 {
        Seq::empty()
    } else {
        concat_all(chunks.drop_last()) + chunks.last()
    }
}

/// The decode results and retained bytes after consuming each chunk in
/// order, draining all available results between chunks.
pub open spec fn fed(chunks: Seq<Seq<u8>>) -> (Seq<DecodeItem>, Seq<u8>)
    decreases chunks.len(),
{
    if chunks.len() == 0 {
        (Seq::empty(), Seq::empty())
    } else {
        let (rs, p) = fed(chunks.drop_last());
        let (rs2, q) = drained(p + chunks.last());
        (rs + rs2, q)
    }
}

/// Framing correctness: however a byte stream is split into chunks,
/// consuming the chunks in order yields exactly the decode results of
/// the whole stream consumed in one piece, and retains the same bytes.
pub proof fn lemma_framing_chunk_independent(chunks: Seq<Seq<u8>>)
    ensures
        fed(chunks).0 == drained(concat_all(chunks)).0,
        fed(chunks).1 == drained(concat_all(chunks)).1,
    decreases chunks.len(),
{
    if chunks.len() == 0 {
        assert(fed(chunks).0 =~= drained(concat_all(chunks)).0);
    } else {
        let c = chunks.drop_last();
        let x = chunks.last();
        lemma_framing_chunk_independent(c);
        lemma_drained_append(concat_all(c), x);
        assert(fed(chunks).0 =~= drained(concat_all(chunks)).0);
    }
}

/// Inserting an empty chunk anywhere leaves the carried stream
/// unchanged.
proof fn lemma_concat_all_insert_empty(chunks: Seq<Seq<u8>>, i: int)
    requires
        0 <= i <= chunks.len(),
    ensures
        concat_all(chunks.insert(i, Seq::empty())) == concat_all(chunks),
    decreases chunks.len(),
{
    let e = Seq::<u8>::empty();
    let ins = chunks.insert(i, e);
    if i == chunks.len() {
        assert(ins.drop_last() =~= chunks);
        assert(ins.last() =~= e);
        assert(concat_all(ins) =~= concat_all(chunks));
    } else {
        assert(ins.drop_last() =~= chunks.drop_last().insert(i, e));
        assert(ins.last() == chunks.last());
        lemma_concat_all_insert_empty(chunks.drop_last(), i);
        assert(concat_all(ins) =~= concat_all(chunks));
    }
}

/// Timeout transparency: a read that produced no bytes, fed as an empty
/// chunk, changes nothing.  The results of a chunk sequence with an
/// empty chunk inserted at any position equal the results without it,
/// so frames split across a no-data gap still decode once the rest
/// arrives.
pub proof fn lemma_timeout_transparent(chunks: Seq<Seq<u8>>, i: int)
    requires
        0 <= i <= chunks.len(),
    ensures
        fed(chunks.insert(i, Seq::empty())).0 == fed(chunks).0,
        fed(chunks.insert(i, Seq::empty())).1 == fed(chunks).1,
{
    lemma_concat_all_insert_empty(chunks, i);
    lemma_framing_chunk_independent(chunks.insert(i, Seq::empty()));
    lemma_framing_chunk_independent(chunks);
}

/// Streams whose next scan agrees produce the same drained results and
/// retain the same bytes.
proof fn lemma_drained_congruent(x: Seq<u8>, y: Seq<u8>)
    requires
        next_result(x) == next_result(y),
    ensures
        drained(x) == drained(y),
{
    let (r, p) = next_result(x);
    match r {
        Some(v) => {
            assert(drained(x).0 == seq![v] + drained(p).0);
            assert(drained(y).0 == seq![v] + drained(p).0);
            assert(drained(x).1 == drained(p).1);
            assert(drained(y).1 == drained(p).1);
        },
        None => {
            assert(drained(x) == (Seq::<DecodeItem>::empty(), p));
            assert(drained(y) == (Seq::<DecodeItem>::empty(), p));
        },
    }
}

/// Bytes holding no frame-start marker pair of their own, standing in
/// front of bytes whose first byte completes no pair either, are
/// skipped entirely: the scan lands on what follows them.
proof fn lemma_skip_nonframe_prefix(s: Seq<u8>, t: Seq<u8>)
    requires
        t.len() > 0,
        t[0] != SYNC_2,
        forall|j: int| 0 <= j < s.len() - 1 ==> !(#[trigger] s[j] == SYNC_1 && s[j + 1] == SYNC_2),
    ensures
        next_result(s + t) == next_result(t),
    decreases s.len(),
{
    if s.len() == 0 {
        assert(s + t =~= t);
    } else {
        let u = s + t;
        assert(u[0] == s[0]);
        if s[0] == SYNC_1 {
            if s.len() >= 2 {
                assert(u[1] == s[1]);
                assert(s[1] != SYNC_2);
            } else {
                assert(u[1] == t[0]);
            }
        }
        assert(u.skip(1) =~= s.skip(1) + t);
        assert(forall|j: int|
            0 <= j < s.skip(1).len() - 1 ==> !(#[trigger] s.skip(1)[j] == SYNC_1 && s.skip(1)[j + 1]
                == SYNC_2));
        lemma_skip_nonframe_prefix(s.skip(1), t);
    }
}

/// No byte loss on resynchronization: a corrupted frame — well shaped
/// but failing its checksum — standing between two valid frames yields
/// exactly the two frames, in order, with one decode failure between
/// them, and nothing retained.  The corrupted bytes past the marker
/// must hold no frame-start marker pair of their own: on such bytes
/// resynchronization can take the pair for a longer frame reaching into
/// what follows, and the property does not hold.
pub proof fn lemma_resync_no_byte_loss(a: Seq<u8>, b: Seq<u8>, c: Seq<u8>)
    requires
        crate::frame::frame_shaped(a) && checksum_ok(a),
        crate::frame::frame_shaped(b) && !checksum_ok(b),
        crate::frame::frame_shaped(c) && checksum_ok(c),
        forall|j: int| 2 <= j < b.len() - 1 ==> !(#[trigger] b[j] == SYNC_1 && b[j + 1] == SYNC_2),
    ensures
        drained(a + b + c).0 == seq![
            Ok::<FrameView, DecodeError>(frame_at(a)),
            Err::<FrameView, DecodeError>(DecodeError::BadChecksum),
            Ok::<FrameView, DecodeError>(frame_at(c)),
        ],
        drained(a + b + c).1 == Seq::<u8>::empty(),
{
    let bc = b + c;
    assert(a + b + c =~= a + bc);
    lemma_sole_frame_drained(a, a[2], a[3]);
    lemma_drained_append(a, bc);
    assert(Seq::<u8>::empty() + bc =~= bc);

    // The scan of `b + c` rejects the corrupted frame and resumes two
    // bytes past its marker.
    let end = 6 + payload_len_of(b);
    assert(payload_len_of(bc) == payload_len_of(b));
    assert(bc.subrange(2, end) =~= b.subrange(2, end));
    assert(bc[end] == b[end] && bc[end + 1] == b[end + 1]);
    assert(!checksum_ok(bc));
    assert(bc.len() >= frame_total_len(bc));
    assert(next_result(bc) == (
        Some(Err::<FrameView, DecodeError>(DecodeError::BadChecksum)),
        bc.skip(2),
    ));
    assert(bc.skip(2) =~= b.skip(2) + c);

    // The rest of the corrupted frame is skipped whole; the third frame
    // then decodes from its own start.
    assert(c[0] == SYNC_1 && c[0] != SYNC_2);
    assert(forall|j: int|
        0 <= j < b.skip(2).len() - 1 ==> !(#[trigger] b.skip(2)[j] == SYNC_1 && b.skip(2)[j + 1] == SYNC_2));
    lemma_skip_nonframe_prefix(b.skip(2), c);
    lemma_drained_congruent(b.skip(2) + c, c);
    lemma_sole_frame_drained(c, c[2], c[3]);

    assert(drained(bc).0 == seq![Err::<FrameView, DecodeError>(DecodeError::BadChecksum)]
        + drained(b.skip(2) + c).0);
    assert(drained(a + b + c).0 =~= seq![
        Ok::<FrameView, DecodeError>(frame_at(a)),
        Err::<FrameView, DecodeError>(DecodeError::BadChecksum),
        Ok::<FrameView, DecodeError>(frame_at(c)),
    ]);
}

/// A strict prefix of a well-formed frame defers: it yields no result
/// and is retained whole — never discarded as incomplete — so a frame
/// split across reads, or across a no-data gap, decodes exactly once,
/// when its last byte arrives.
pub proof fn lemma_partial_frame_deferred(s: Seq<u8>, k: int)
    requires
        crate::frame::frame_shaped(s),
        checksum_ok(s),
        0 <= k < s.len(),
    ensures
        drained(s.take(k)).0 == Seq::<DecodeItem>::empty(),
        drained(s.take(k)).1 == s.take(k),
        drained(s).0 == seq![Ok::<FrameView, DecodeError>(frame_at(s))],
        drained(s).1 == Seq::<u8>::empty(),
{
    let p = s.take(k);
    if k == 0 {
        assert(p =~= Seq::<u8>::empty());
    } else if k >= 6 {
        assert(payload_len_of(p) == payload_len_of(s));
        assert(p.len() < frame_total_len(p));
    }
    assert(next_result(p) == (None::<DecodeItem>, p));
    assert(drained(p) == (Seq::<DecodeItem>::empty(), p));
    lemma_sole_frame_drained(s, s[2], s[3]);
}

/// A byte sequence that is exactly one well-formed frame yields exactly
/// that frame and retains nothing.
pub proof fn lemma_sole_frame_drained(s: Seq<u8>, class: u8, id: u8)
    requires
        crate::frame::sole_frame(s, class, id),
    ensures
        drained(s).0 == seq![Ok::<FrameView, DecodeError>(frame_at(s))],
        drained(s).1 == Seq::<u8>::empty(),
{
    let e = Seq::<u8>::empty();
    assert(s[0] == SYNC_1 && s[1] == SYNC_2);
    assert(frame_total_len(s) == s.len());
    assert(s.skip(frame_total_len(s)) =~= e);
    assert(next_result(s) == (Some(Ok::<FrameView, DecodeError>(frame_at(s))), e));
    assert(next_result(e) == (None::<DecodeItem>, e));
    assert(drained(e) == (Seq::<DecodeItem>::empty(), e));
    assert(drained(s).0 =~= seq![Ok::<FrameView, DecodeError>(frame_at(s))]);
}

/// The mathematical value of one decode result.
pub open spec fn decode_item(x: Result<Frame, DecodeError>) -> DecodeItem {
    match x {
        Ok(f) => Ok(f@),
        Err(e) => Err(e),
    }
}

/// The mathematical value of one pulled result, if any.
pub open spec fn item_view(r: Option<Result<Frame, DecodeError>>) -> Option<DecodeItem> {
    match r {
        Some(x) => Some(decode_item(x)),
        None => None,
    }
}

/// The mathematical values of a sequence of pulled results.
pub open spec fn items_view(s: Seq<Result<Frame, DecodeError>>) -> Seq<DecodeItem> {
    s.map_values(|x: Result<Frame, DecodeError>| decode_item(x))
}

/// Copies `v[k..]` into a fresh vector.
fn tail_from(v: &Vec<u8>, k: usize) -> (r: Vec<u8>)
    requires
        k <= v@.len(),
    ensures
        r@ == v@.skip(k as int),
{
    let mut r: Vec<u8> = Vec::new();
    let mut j: usize = k;
    while j < v.len()
        invariant
            k <= j <= v@.len(),
            r@ == v@.subrange(k as int, j as int),
        decreases v@.len() - j,
    {
        proof {
            assert(v@.subrange(k as int, j + 1) =~= v@.subrange(k as int, j as int).push(v@[j as int]));
        }
        r.push(v[j]);
        j = j + 1;
    }
    proof {
        assert(v@.subrange(k as int, v@.len() as int) =~= v@.skip(k as int));
    }
    r
}

/// Copies `v[a..b]` into a fresh vector.
fn slice_range(v: &Vec<u8>, a: usize, b: usize) -> (r: Vec<u8>)
    requires
        a <= b <= v@.len(),
    ensures
        r@ == v@.subrange(a as int, b as int),
{
    let mut r: Vec<u8> = Vec::new();
    let mut j: usize = a;
    while j < b
        invariant
            a <= j <= b <= v@.len(),
            r@ == v@.subrange(a as int, j as int),
        decreases b - j,
    {
        proof {
            assert(v@.subrange(a as int, j + 1) =~= v@.subrange(a as int, j as int).push(v@[j as int]));
        }
        r.push(v[j]);
        j = j + 1;
    }
    r
}

/// A stateful accumulator of not-yet-framed bytes.  Its view is the
/// pending bytes: everything consumed that no decode result has
/// accounted for yet.
pub struct FrameParser {
    buf: Vec<u8>,
}

impl View for FrameParser {
    type V = Seq<u8>;

    closed spec fn view(&self) -> Seq<u8> {
        self.buf@
    }
}

impl FrameParser {
    /// A parser with nothing pending.
    pub fn new() -> (r: FrameParser)
        ensures
            r@ == Seq::<u8>::empty(),
    {
        FrameParser { buf: Vec::new() }
    }

    /// Appends a chunk to the pending bytes.  No byte is dropped or
    /// duplicated; results become available through `try_next`.
    pub fn consume(&mut self, chunk: &[u8])
        ensures
            final(self)@ == old(self)@ + chunk@,
    {
        let mut j: usize = 0;
        while j < chunk.len()
            invariant
                j <= chunk@.len(),
                self.buf@ == old(self)@ + chunk@.take(j as int),
            decreases chunk@.len() - j,
        {
            proof {
                assert(old(self)@ + chunk@.take(j + 1) =~= (old(self)@ + chunk@.take(
                    j as int,
                )).push(chunk@[j as int]));
            }
            self.buf.push(chunk[j]);
            j = j + 1;
        }
        proof {
            assert(chunk@.take(chunk@.len() as int) =~= chunk@);
        }
    }

    /// Scans the pending bytes for the next decode result.  `None`
    /// means no complete frame is determinable yet: the retained bytes
    /// keep any in-progress partial frame, never discarding it as
    /// incomplete.  A result compacts the accumulator behind it.
    pub fn try_next(&mut self) -> (r: Option<Result<Frame, DecodeError>>)
        ensures
            item_view(r) == next_result(old(self)@).0,
            final(self)@ == next_result(old(self)@).1,
    {
        let mut i: usize = 0;
        proof {
            assert(self.buf@.skip(0) =~= self.buf@);
        }
        loop
            invariant
                i <= self.buf@.len(),
                self.buf@ == old(self)@,
                next_result(old(self)@) == next_result(self.buf@.skip(i as int)),
            decreases self.buf@.len() - i,
        {
            let ghost s = self.buf@.skip(i as int);
            let n = self.buf.len();
            if i >= n {
                proof {
                    assert(s =~= Seq::<u8>::empty());
                }
                self.buf = Vec::new();
                return None;
            }
            proof {
                assert(s.len() == n - i);
                assert(s[0] == self.buf@[i as int]);
            }
            if self.buf[i] != SYNC_1 {
                proof {
                    assert(s.skip(1) =~= self.buf@.skip(i + 1));
                }
                i = i + 1;
                continue ;
            }
            if n - i < 2 {
                let kept = tail_from(&self.buf, i);
                self.buf = kept;
                return None;
            }
            proof {
                assert(s[1] == self.buf@[i + 1]);
            }
            if self.buf[i + 1] != SYNC_2 {
                proof {
                    assert(s.skip(1) =~= self.buf@.skip(i + 1));
                }
                i = i + 1;
                continue ;
            }
            if n - i < 6 {
                let kept = tail_from(&self.buf, i);
                self.buf = kept;
                return None;
            }
            proof {
                assert(s[4] == self.buf@[i + 4]);
                assert(s[5] == self.buf@[i + 5]);
            }
            let plen: usize = self.buf[i + 4] as usize + 256 * (self.buf[i + 5] as usize);
            proof {
                assert(plen == payload_len_of(s));
            }
            if plen > MAX_PAYLOAD_LEN as usize {
                proof {
                    assert(s.skip(2) =~= self.buf@.skip(i + 2));
                }
                let kept = tail_from(&self.buf, i + 2);
                self.buf = kept;
                return Some(Err(DecodeError::OversizedPayload));
            }
            if n - i < 8 + plen {
                let kept = tail_from(&self.buf, i);
                self.buf = kept;
                return None;
            }
            proof {
                assert(s.subrange(2, 6 + plen) =~= self.buf@.subrange(i + 2, i + 6 + plen));
                assert(s[6 + plen] == self.buf@[i + 6 + plen]);
                assert(s[7 + plen] == self.buf@[i + 7 + plen]);
            }
            let (a, b) = checksum(self.buf.as_slice(), i + 2, i + 6 + plen);
            if a == self.buf[i + 6 + plen] && b == self.buf[i + 7 + plen] {
                proof {
                    assert(checksum_ok(s));
                    assert(s.subrange(6, 6 + plen) =~= self.buf@.subrange(i + 6, i + 6 + plen));
                    assert(s.skip(frame_total_len(s)) =~= self.buf@.skip(i + 8 + plen));
                }
                let payload = slice_range(&self.buf, i + 6, i + 6 + plen);
                let frame = Frame { class: self.buf[i + 2], id: self.buf[i + 3], payload };
                proof {
                    assert(frame@ =~= frame_at(s));
                }
                let kept = tail_from(&self.buf, i + 8 + plen);
                self.buf = kept;
                return Some(Ok(frame));
            } else {
                proof {
                    assert(!checksum_ok(s));
                    assert(s.skip(2) =~= self.buf@.skip(i + 2));
                }
                let kept = tail_from(&self.buf, i + 2);
                self.buf = kept;
                return Some(Err(DecodeError::BadChecksum));
            }
        }
    }

    /// Pulls every decode result currently available, in strict arrival
    /// order, and compacts the accumulator to the retained bytes.
    pub fn drain(&mut self) -> (r: Vec<Result<Frame, DecodeError>>)
        ensures
            items_view(r@) == drained(old(self)@).0,
            final(self)@ == drained(old(self)@).1,
    {
        let mut out: Vec<Result<Frame, DecodeError>> = Vec::new();
        proof {
            assert(items_view(out@) =~= Seq::<DecodeItem>::empty());
        }
        loop
            invariant
                drained(old(self)@).0 == items_view(out@) + drained(self@).0,
                drained(old(self)@).1 == drained(self@).1,
            decreases self@.len(),
        {
            let ghost pre = self@;
            match self.try_next() {
                Some(x) => {
                    proof {
                        lemma_next_shrinks(pre);
                        assert(items_view(out@.push(x)) =~= items_view(out@).push(decode_item(x)));
                        assert(items_view(out@) + (seq![decode_item(x)] + drained(self@).0) =~= items_view(
                            out@.push(x),
                        ) + drained(self@).0);
                    }
                    out.push(x);
                },
                None => {
                    proof {
                        assert(drained(pre) == (Seq::<DecodeItem>::empty(), next_result(pre).1));
                        assert(items_view(out@) + Seq::<DecodeItem>::empty() =~= items_view(out@));
                    }
                    return out;
                },
            }
        }
    }

    /// Appends a chunk and pulls every decode result that then becomes
    /// available: one pass of the transport read loop.
    pub fn consume_and_drain(&mut self, chunk: &[u8]) -> (r: Vec<Result<Frame, DecodeError>>)
        ensures
            items_view(r@) == drained(old(self)@ + chunk@).0,
            final(self)@ == drained(old(self)@ + chunk@).1,
    {
        self.consume(chunk);
        self.drain()
    }
}

} // verus!
