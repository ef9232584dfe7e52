//! Call frames, and the bounded stack of those that wait.
use arrayvec::ArrayVec;
use vstd::prelude::*;

verus! {

/// How many calls can wait for their callees.
pub const FRAMES_MAX: usize = 64;

/// A call that is under way.
#[derive(Clone, Copy, Debug, PartialEq, Eq, Structural)]
pub struct CallFrame {
    /// The place of the closure that runs.
    pub closure: usize,
    /// The position of the next byte in the code of the closure's function.
    pub ip: usize,
    /// The slot of the stack at which the frame begins.
    pub stack: usize,
}

/// `arrayvec::ArrayVec`, a vector with room for `CAP` elements.
#[verifier::external_type_specification]
#[verifier::external_body]
#[verifier::reject_recursive_types(T)]
pub struct ExArrayVec<T, const CAP: usize>(ArrayVec<T, CAP>);

/// The frames that wait, the one that waits longest first.
pub uninterp spec fn waiting(frames: ArrayVec<CallFrame, FRAMES_MAX>) -> Seq<CallFrame>;

/// `ArrayVec::new`: an empty vector.
#[verifier::external_body]
pub(crate) fn no_frames() -> (frames: ArrayVec<CallFrame, FRAMES_MAX>)
    ensures
        waiting(frames) == Seq::<CallFrame>::empty(),
{
    ArrayVec::new()
}

/// `ArrayVec::push`: the element goes to the end. A full vector would panic.
#[verifier::external_body]
pub(crate) fn push_frame(frames: &mut ArrayVec<CallFrame, FRAMES_MAX>, frame: CallFrame)
    requires
        waiting(*old(frames)).len() < FRAMES_MAX,
    ensures
        waiting(*final(frames)) == waiting(*old(frames)).push(frame),
{
    frames.push(frame);
}

/// `ArrayVec::pop`: the last element goes, if there is one.
#[verifier::external_body]
pub(crate) fn pop_frame(frames: &mut ArrayVec<CallFrame, FRAMES_MAX>) -> (frame: Option<CallFrame>)
    ensures
        waiting(*old(frames)).len() == 0 ==> frame is None && waiting(*final(frames)) == waiting(
            *old(frames),
        ),
        waiting(*old(frames)).len() > 0 ==> frame == Some(waiting(*old(frames)).last()) && waiting(
            *final(frames),
        ) == waiting(*old(frames)).drop_last(),
{
    frames.pop()
}

/// `ArrayVec::clear`: all elements go.
#[verifier::external_body]
pub(crate) fn clear_frames(frames: &mut ArrayVec<CallFrame, FRAMES_MAX>)
    ensures
        waiting(*final(frames)) == Seq::<CallFrame>::empty(),
{
    frames.clear();
}

/// `ArrayVec::as_slice`: the elements in their order.
#[verifier::external_body]
pub(crate) fn frame_slice(frames: &ArrayVec<CallFrame, FRAMES_MAX>) -> (slice: &[CallFrame])
    ensures
        slice@ == waiting(*frames),
{
    frames.as_slice()
}

} // verus!
