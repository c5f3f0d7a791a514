//! The acknowledgment wait: after a configuration command is sent, the
//! decoded frame stream is watched for the acknowledgment frame naming
//! that command's (class, id) pair.  Non-matching frames and decode
//! failures are ignored; the first match ends the wait.  No timeout is
//! imposed: if the acknowledgment never arrives the wait never ends.

use vstd::prelude::*;

use crate::frame::DecodeError;
use crate::frame::Frame;
use crate::frame::FrameView;
use crate::parser::decode_item;
use crate::parser::items_view;

verus! {

/// Message class of acknowledgment frames.
pub const ACK_CLASS: u8 = 0x05;
/// Message id of positive acknowledgment frames.
pub const ACK_ID: u8 = 0x01;

/// The (class, id) pair identifying which configuration command's
/// acknowledgment is awaited.  One target is live at a time.
#[derive(Clone, Copy, Debug, PartialEq, Eq, Structural)]
pub struct AckTarget {
    pub class: u8,
    pub id: u8,
}

/// `f` is a positive acknowledgment frame whose payload names the
/// target's class and id.
pub open spec fn is_ack_for(f: FrameView, t: AckTarget) -> bool {
    &&& f.class == ACK_CLASS
    &&& f.id == ACK_ID
    &&& f.payload.len() == 2
    &&& f.payload[0] == t.class
    &&& f.payload[1] == t.id
}

/// Decode result `x` is a frame acknowledging `t` (a decode failure
/// acknowledges nothing).
pub open spec fn item_acknowledges(x: Result<FrameView, DecodeError>, t: AckTarget) -> bool {
    match x {
        Ok(f) => is_ack_for(f, t),
        Err(_) => false,
    }
}

/// Decides whether one frame acknowledges the target.
pub fn frame_acknowledges(f: &Frame, t: AckTarget) -> (r: bool)
    ensures
        r == is_ack_for(f@, t),
{
    f.class == ACK_CLASS && f.id == ACK_ID && f.payload.len() == 2 && f.payload[0] == t.class
        && f.payload[1] == t.id
}

/// Scans a batch of decode results, in arrival order, for the first
/// frame acknowledging `t`.  Returns its position, so the first
/// matching acknowledgment wins; decode failures and non-matching
/// frames (other acknowledgments included) are ignored.  Returns `None`
/// exactly when no result in the batch acknowledges `t`.
pub fn scan_for_ack(results: &Vec<Result<Frame, DecodeError>>, t: AckTarget) -> (r: Option<usize>)
    ensures
        match r {
            Some(i) => {
                &&& i < results@.len()
                &&& item_acknowledges(items_view(results@)[i as int], t)
                &&& forall|j: int|
                    0 <= j < i ==> !item_acknowledges(items_view(results@)[j], t)
            },
            None => forall|j: int|
                0 <= j < results@.len() ==> !item_acknowledges(items_view(results@)[j], t),
        },
{
    let mut i: usize = 0;
    while i < results.len()
        invariant
            i <= results@.len(),
            forall|j: int| 0 <= j < i ==> !item_acknowledges(items_view(results@)[j], t),
        decreases results@.len() - i,
    {
        match &results[i] {
            Ok(f) => {
                if frame_acknowledges(f, t) {
                    proof {
                        assert(items_view(results@)[i as int] == decode_item(results@[i as int]));
                    }
                    return Some(i);
                }
            },
            Err(_) => {},
        }
        proof {
            assert(items_view(results@)[i as int] == decode_item(results@[i as int]));
        }
        i = i + 1;
    }
    None
}

/// Whether a wait that started unmatched and observed the frames in
/// order has matched: the fold of [`AckWaiter::observe`] over `frames`.
pub open spec fn wait_matched_after(frames: Seq<FrameView>, t: AckTarget) -> bool
    decreases frames.len(),
{
    if frames.len() == 0 {
        false
    } else {
        wait_matched_after(frames.drop_last(), t) || is_ack_for(frames.last(), t)
    }
}

/// Match specificity of the wait: observing a stream of frames ends the
/// wait exactly when some frame in it acknowledges the target.  In
/// particular a target acknowledged by no frame of a finite stream
/// leaves the wait unmatched however long the stream is — the wait has
/// no timeout and would block forever.
pub proof fn lemma_wait_matches_iff_acknowledged(frames: Seq<FrameView>, t: AckTarget)
    ensures
        wait_matched_after(frames, t) <==> exists|i: int|
            0 <= i < frames.len() && is_ack_for(frames[i], t),
    decreases frames.len(),
{
    if frames.len() > 0 {
        let head = frames.drop_last();
        lemma_wait_matches_iff_acknowledged(head, t);
        if is_ack_for(frames.last(), t) {
            assert(is_ack_for(frames[frames.len() - 1], t));
        } else if wait_matched_after(head, t) {
            let i = choose|i: int| 0 <= i < head.len() && is_ack_for(head[i], t);
            assert(is_ack_for(frames[i], t));
        } else {
            assert forall|i: int| 0 <= i < frames.len() implies !is_ack_for(frames[i], t) by {
                if i < frames.len() - 1 {
                    assert(frames[i] == head[i]);
                }
            }
        }
    }
}

/// The two states of the acknowledgment wait: still waiting, or the
/// target's acknowledgment has been observed.
pub struct AckWaiter {
    pub target: AckTarget,
    pub matched: bool,
}

impl AckWaiter {
    /// A wait for the acknowledgment of `target`, not yet matched.
    pub fn new(target: AckTarget) -> (r: AckWaiter)
        ensures
            r.target == target,
            !r.matched,
    {
        AckWaiter { target, matched: false }
    }

    /// Observes one decoded frame: the wait moves to matched exactly
    /// when the frame acknowledges the target; once matched it stays
    /// matched, and non-matching frames change nothing.
    pub fn observe(&mut self, f: &Frame)
        ensures
            final(self).target == old(self).target,
            final(self).matched == (old(self).matched || is_ack_for(f@, old(self).target)),
    {
        if frame_acknowledges(f, self.target) {
            self.matched = true;
        }
    }
}

} // verus!
