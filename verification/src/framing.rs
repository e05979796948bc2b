//! How Cap'n Proto segments map onto the frames of a ZeroMQ multipart message.
//!
//! A message goes out as one frame per segment; every frame but the last is
//! sent with the "more" flag. On the way in, frames are read until one arrives
//! whose "more" flag is clear, and each frame is read back as the whole
//! eight-byte words it holds.

use vstd::prelude::*;
use vstd::slice::slice_subrange;

verus! {

/// Number of bytes in one Cap'n Proto word.
pub const BYTES_PER_WORD: usize = 8;

/// The part of a frame that is made of whole words: the frame's bytes with any
/// trailing partial word left out.
pub open spec fn whole_words(frame: Seq<u8>) -> Seq<u8> {
    frame.take((frame.len() - frame.len() % 8) as int)
}

/// Reads each received frame as a segment of whole words: the segment for a
/// frame is the longest prefix of the frame whose length is a multiple of eight.
pub fn frames_to_segments<'a>(frames: &[&'a [u8]]) -> (segments: Vec<&'a [u8]>)
    ensures
        segments@.len() == frames@.len(),
        forall|i: int| 0 <= i < frames@.len() ==> #[trigger] segments@[i]@ == whole_words(frames@[i]@),
{
    let mut segments: Vec<&'a [u8]> = Vec::new();
    let mut i: usize = 0;
    while i < frames.len()
        invariant
            i <= frames@.len(),
            segments@.len() == i,
            forall|k: int| 0 <= k < i ==> #[trigger] segments@[k]@ == whole_words(frames@[k]@),
        decreases frames@.len() - i,
    {
        let frame: &'a [u8] = frames[i];
        let n: usize = frame.len() - frame.len() % BYTES_PER_WORD;
        segments.push(slice_subrange(frame, 0, n));
        i = i + 1;
    }
    segments
}

/// The frames that send a message whose segments are `segments`, in order:
/// each segment paired with its "more" flag, set on every frame but the last.
pub fn frames_for_output<'a>(segments: &[&'a [u8]]) -> (frames: Vec<(&'a [u8], bool)>)
    ensures
        frames@ == output_frames(segments@),
{
    let n = segments.len();
    let mut frames: Vec<(&'a [u8], bool)> = Vec::new();
    let mut i: usize = 0;
    while i < n
        invariant
            n == segments@.len(),
            i <= n,
            frames@.len() == i,
            forall|k: int| 0 <= k < i ==> #[trigger] frames@[k] == (segments@[k], k + 1 < n),
        decreases n - i,
    {
        let more: bool = i + 1 < n;
        frames.push((segments[i], more));
        i = i + 1;
    }
    assert(frames@ =~= output_frames(segments@));
    frames
}

/// The frames that carry a message of the given segments: each segment with
/// its "more" flag, set on all but the last.
pub open spec fn output_frames<S>(segments: Seq<S>) -> Seq<(S, bool)> {
    Seq::new(segments.len(), |i: int| (segments[i], i + 1 < segments.len()))
}

/// What a receiver is handed for frames sent in order: each frame, then its
/// "more" flag.
pub open spec fn delivered<F, E>(frames: Seq<(F, bool)>) -> Seq<RecvEvent<F, E>>
    decreases frames.len(),
{
    if frames.len() == 0 {
        Seq::empty()
    } else {
        seq![RecvEvent::Frame(frames[0].0), RecvEvent::More(frames[0].1)] + delivered(
            frames.drop_first(),
        )
    }
}

/// Which call a [`Receiver`] waits on next.
#[derive(Clone, Copy, Debug, PartialEq, Eq, Structural)]
pub enum RecvRequest {
    /// Receive the next frame.
    Frame,
    /// Ask whether more frames of the message follow.
    More,
}

/// What came back from the call that a [`Receiver`] asked for.
pub enum RecvEvent<F, E> {
    /// A frame arrived.
    Frame(F),
    /// Whether more frames of the message follow.
    More(bool),
    /// The call failed.
    Failed(E),
}

/// Where receiving a message stands after one event.
pub enum RecvOutcome<F, E> {
    /// More calls are needed.
    Pending(Receiver<F>),
    /// The whole message arrived: its frames, in order.
    Complete(Vec<F>),
    /// A call failed: its error.
    Failed(E),
}

/// Receives the frames of one multipart message: it asks for a frame, then
/// whether more follow, and so on until the answer is no.
pub struct Receiver<F> {
    frames: Vec<F>,
    awaiting_more: bool,
}

impl<F> View for Receiver<F> {
    /// The frames received so far, and whether the receiver waits on the
    /// "more" answer (rather than on a frame).
    type V = (Seq<F>, bool);

    closed spec fn view(&self) -> (Seq<F>, bool) {
        (self.frames@, self.awaiting_more)
    }
}

impl<F> Receiver<F> {
    /// A receiver that waits on the "more" flag has received a frame.
    #[verifier::type_invariant]
    spec fn well_formed(self) -> bool {
        self.awaiting_more ==> self.frames@.len() > 0
    }

    /// A receiver that has received nothing and waits on the first frame.
    pub fn new() -> (r: Receiver<F>)
        ensures
            r@ == (Seq::<F>::empty(), false),
    {
        Receiver { frames: Vec::new(), awaiting_more: false }
    }

    /// The call to make next.
    pub fn request(&self) -> (r: RecvRequest)
        ensures
            r == (if self@.1 { RecvRequest::More } else { RecvRequest::Frame }),
    {
        if self.awaiting_more {
            RecvRequest::More
        } else {
            RecvRequest::Frame
        }
    }

    /// Takes in what the requested call gave: a frame is kept and the "more"
    /// flag is asked for; a "more" answer asks for the next frame, or ends the
    /// message with the frames received so far; a failure ends it with the
    /// error.
    pub fn step<E>(self, event: RecvEvent<F, E>) -> (r: RecvOutcome<F, E>)
        requires
            event is Frame ==> !self@.1,
            event is More ==> self@.1,
        ensures
            r@ == recv_next(self@.0, self@.1, event),
            r@ matches RecvState::Complete(frames) ==> frames.len() > 0,
            event matches RecvEvent::Failed(e) ==> r@ == RecvState::<F, E>::Failed(e),
            r@ is Complete ==> event == RecvEvent::<F, E>::More(false) && r@ == RecvState::<
                F,
                E,
            >::Complete(self@.0),
            r@ matches RecvState::Pending(frames, _) ==> frames.len() >= self@.0.len(),
    {
        proof {
            use_type_invariant(&self);
        }
        match event {
            RecvEvent::Frame(f) => {
                let mut frames = self.frames;
                frames.push(f);
                RecvOutcome::Pending(Receiver { frames, awaiting_more: true })
            },
            RecvEvent::More(true) => {
                RecvOutcome::Pending(Receiver { frames: self.frames, awaiting_more: false })
            },
            RecvEvent::More(false) => RecvOutcome::Complete(self.frames),
            RecvEvent::Failed(e) => RecvOutcome::Failed(e),
        }
    }
}

/// [`RecvOutcome`] as a value: the frames and the waiting state of a pending
/// receiver, the frames of a complete message, or the error.
pub enum RecvState<F, E> {
    Pending(Seq<F>, bool),
    Complete(Seq<F>),
    Failed(E),
}

impl<F, E> View for RecvOutcome<F, E> {
    type V = RecvState<F, E>;

    open spec fn view(&self) -> RecvState<F, E> {
        match self {
            RecvOutcome::Pending(r) => RecvState::Pending(r@.0, r@.1),
            RecvOutcome::Complete(frames) => RecvState::Complete(frames@),
            RecvOutcome::Failed(e) => RecvState::Failed(*e),
        }
    }
}

/// One step of a receiver that has received `frames` and waits on the "more"
/// flag when `awaiting_more` holds, on `event`.
pub open spec fn recv_next<F, E>(frames: Seq<F>, awaiting_more: bool, event: RecvEvent<F, E>) -> RecvState<F, E> {
    match event {
        RecvEvent::Frame(f) => RecvState::Pending(frames.push(f), true),
        RecvEvent::More(more) => if more {
            RecvState::Pending(frames, false)
        } else {
            RecvState::Complete(frames)
        },
        RecvEvent::Failed(e) => RecvState::Failed(e),
    }
}

/// A receiver that has received `frames` and waits on the "more" flag when
/// `awaiting_more` holds, after taking in `events` one by one (it stops at the
/// first event that ends the message).
pub open spec fn recv_run<F, E>(frames: Seq<F>, awaiting_more: bool, events: Seq<RecvEvent<F, E>>) -> RecvState<F, E>
    decreases events.len(),
{
    if events.len() == 0 {
        RecvState::Pending(frames, awaiting_more)
    } else {
        match recv_next(frames, awaiting_more, events[0]) {
            RecvState::Pending(next, waiting) => recv_run(next, waiting, events.drop_first()),
            done => done,
        }
    }
}

/// What the socket hands a receiver for a message of the given frames: each
/// frame, then whether more follow (yes for all but the last).
pub open spec fn message_events<F, E>(frames: Seq<F>) -> Seq<RecvEvent<F, E>>
    decreases frames.len(),
{
    if frames.len() == 0 {
        Seq::empty()
    } else if frames.len() == 1 {
        seq![RecvEvent::Frame(frames[0]), RecvEvent::More(false)]
    } else {
        seq![RecvEvent::Frame(frames[0]), RecvEvent::More(true)] + message_events(
            frames.drop_first(),
        )
    }
}

/// Receiving a multipart message of one or more frames gives back exactly
/// those frames, in the order they came.
pub proof fn recv_gives_message<F, E>(frames: Seq<F>)
    requires
        frames.len() > 0,
    ensures
        recv_run(Seq::<F>::empty(), false, message_events::<F, E>(frames)) == RecvState::<F, E>::Complete(frames),
{
    lemma_recv_run_message::<F, E>(Seq::empty(), frames);
    assert(Seq::<F>::empty() + frames =~= frames);
}

/// A message sent as [`frames_for_output`] frames it, one or more segments
/// long, is received as those very segments, in order; and where each segment
/// is made of whole words, as Cap'n Proto segments are, [`frames_to_segments`]
/// reads each received frame back as the segment itself.
pub proof fn sent_message_is_received<E>(segments: Seq<Seq<u8>>)
    requires
        segments.len() > 0,
    ensures
        recv_run(Seq::empty(), false, delivered::<Seq<u8>, E>(output_frames(segments)))
            == RecvState::<Seq<u8>, E>::Complete(segments),
        forall|i: int| 0 <= i < segments.len() && #[trigger] segments[i].len() % 8 == 0 ==> whole_words(segments[i]) == segments[i],
{
    lemma_delivered_output::<Seq<u8>, E>(segments);
    recv_gives_message::<Seq<u8>, E>(segments);
    assert forall|i: int| 0 <= i < segments.len() && #[trigger] segments[i].len() % 8 == 0 implies whole_words(segments[i]) == segments[i] by {
        assert(segments[i].take(segments[i].len() as int) =~= segments[i]);
    }
}

/// A failed call ends the receiving of a message with that call's error,
/// whatever was received before and whatever would come after: no frame is
/// kept and no further call is made.
pub proof fn recv_failure_ends_with_error<F, E>(
    frames: Seq<F>,
    awaiting_more: bool,
    e: E,
    rest: Seq<RecvEvent<F, E>>,
)
    ensures
        recv_run(frames, awaiting_more, seq![RecvEvent::Failed(e)] + rest) == RecvState::<F, E>::Failed(e),
{
    let events = seq![RecvEvent::Failed(e)] + rest;
    assert(events[0] == RecvEvent::<F, E>::Failed(e));
}

/// A message is complete only on a "no more" answer, and then it is made of
/// exactly the frames received so far; every other event either goes on or
/// fails.
pub proof fn recv_completes_only_on_no_more<F, E>(frames: Seq<F>, awaiting_more: bool, event: RecvEvent<F, E>)
    ensures
        recv_next(frames, awaiting_more, event) is Complete ==> event == RecvEvent::<F, E>::More(false)
            && recv_next(frames, awaiting_more, event) == RecvState::<F, E>::Complete(frames),
        recv_next(frames, awaiting_more, event) is Failed ==> event is Failed,
{
}

/// Receiving that completes has met no failure: every event it took in before
/// the "no more" answer that ended it was a frame or a "more" answer, and the
/// frames it hands on are those received before plus the frames among the
/// events, in order.
pub proof fn recv_completion_meets_no_failure<F, E>(
    frames: Seq<F>,
    awaiting_more: bool,
    events: Seq<RecvEvent<F, E>>,
)
    ensures
        recv_run(frames, awaiting_more, events) is Complete ==> exists|k: int|
            0 <= k < events.len() && events[k] == RecvEvent::<F, E>::More(false) && forall|m: int|
                0 <= m < k ==> !(#[trigger] events[m] is Failed) && !(events[m] == RecvEvent::<
                    F,
                    E,
                >::More(false)),
        recv_run(frames, awaiting_more, events) matches RecvState::Complete(got) ==> frames.len()
            <= got.len() && got.take(frames.len() as int) == frames,
    decreases events.len(),
{
    if events.len() > 0 {
        let rest = events.drop_first();
        match recv_next(frames, awaiting_more, events[0]) {
            RecvState::Pending(next, waiting) => {
                recv_completion_meets_no_failure(next, waiting, rest);
                if recv_run(frames, awaiting_more, events) is Complete {
                    let k = choose|k: int|
                        0 <= k < rest.len() && rest[k] == RecvEvent::<F, E>::More(false)
                            && forall|m: int|
                            0 <= m < k ==> !(#[trigger] rest[m] is Failed) && !(rest[m]
                                == RecvEvent::<F, E>::More(false));
                    assert(events[k + 1] == rest[k]);
                    assert forall|m: int| 0 <= m < k + 1 implies !(#[trigger] events[m] is Failed)
                        && !(events[m] == RecvEvent::<F, E>::More(false)) by {
                        if m > 0 {
                            assert(events[m] == rest[m - 1]);
                        }
                    }
                }
                if let RecvState::Complete(got) = recv_run(frames, awaiting_more, events) {
                    assert(frames.len() <= next.len() && next.take(frames.len() as int) == frames);
                    assert(got.take(next.len() as int).take(frames.len() as int) =~= got.take(
                        frames.len() as int,
                    ));
                }
            },
            _ => {
                if recv_run(frames, awaiting_more, events) is Complete {
                    assert(events[0] == RecvEvent::<F, E>::More(false));
                }
                if let RecvState::Complete(got) = recv_run(frames, awaiting_more, events) {
                    assert(got.take(frames.len() as int) =~= frames);
                }
            },
        }
    }
}

proof fn lemma_delivered_output<F, E>(frames: Seq<F>)
    ensures
        delivered::<F, E>(output_frames(frames)) == message_events::<F, E>(frames),
    decreases frames.len(),
{
    let out = output_frames(frames);
    if frames.len() == 0 {
        assert(delivered::<F, E>(out) =~= Seq::<RecvEvent<F, E>>::empty());
    } else if frames.len() == 1 {
        assert(out.drop_first() =~= Seq::<(F, bool)>::empty());
        assert(delivered::<F, E>(out.drop_first()) =~= Seq::<RecvEvent<F, E>>::empty());
        assert(delivered::<F, E>(out) =~= message_events::<F, E>(frames));
    } else {
        let tail = frames.drop_first();
        lemma_delivered_output::<F, E>(tail);
        assert(out.drop_first() =~= output_frames(tail));
        assert(delivered::<F, E>(out) =~= message_events::<F, E>(frames));
    }
}

proof fn lemma_recv_run_message<F, E>(received: Seq<F>, frames: Seq<F>)
    requires
        frames.len() > 0,
    ensures
        recv_run(received, false, message_events::<F, E>(frames)) == RecvState::<F, E>::Complete(received + frames),
    decreases frames.len(),
{
    let events = message_events::<F, E>(frames);
    let more = frames.len() > 1;
    let after_frame = received.push(frames[0]);
    let rest = events.drop_first();
    if frames.len() == 1 {
        assert(events == seq![RecvEvent::<F, E>::Frame(frames[0]), RecvEvent::More(false)]);
    } else {
        let tail = frames.drop_first();
        assert(events == seq![RecvEvent::<F, E>::Frame(frames[0]), RecvEvent::More(true)] + message_events::<F, E>(tail));
        assert(rest.drop_first() =~= message_events::<F, E>(tail));
    }
    assert(events[0] == RecvEvent::<F, E>::Frame(frames[0]));
    assert(rest[0] == RecvEvent::<F, E>::More(more));
    assert(recv_run(received, false, events) == recv_run(after_frame, true, rest));
    if frames.len() == 1 {
        assert(after_frame =~= received + frames);
    } else {
        let tail = frames.drop_first();
        assert(recv_run(after_frame, true, rest) == recv_run(after_frame, false, rest.drop_first()));
        lemma_recv_run_message::<F, E>(after_frame, tail);
        assert(after_frame + tail =~= received + frames);
    }
}

} // verus!
