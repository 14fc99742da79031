use vstd::prelude::*;

use super::{Error, Frame, Result};
use super::frame::FrameView;
use std::sync::Arc;
use vstd::rwlock::{RwLock, RwLockPredicate};

verus! {

/// How deep each direction of the pipe buffers.
///
/// A publisher retransmitting a burst must not block on a subscriber that has
/// not caught up yet, so the buffer covers a whole GOOSE burst.
pub const PIPE_DEPTH: usize = 64;

/// How long, in milliseconds, a blocked read waits before checking whether the
/// pipe was closed.
///
/// A reader has to notice a close even when no frame ever arrives, or a
/// subscriber task outlives the interface it was reading.
pub const POLL_INTERVAL_MS: u64 = 50;

/// The two ends of a segment.
#[derive(Debug, Clone, Copy, PartialEq, Eq, Structural)]
pub enum End {
    A,
    B,
}

impl End {
    /// The end on the other side.
    pub open spec fn other(self) -> End {
        match self {
            End::A => End::B,
            End::B => End::A,
        }
    }
}

/// What one look at the queue of incoming frames comes to.
#[derive(Debug, PartialEq, Eq)]
pub enum Poll {
    /// The next frame.
    Frame(Frame),
    /// Nothing will come any more.
    Closed,
    /// Nothing is there yet; look again later.
    Wait,
}

/// One direction of a segment: the frames under way, and whether its reader
/// and its writer are still there.
#[derive(Debug)]
struct Lane {
    queue: Vec<Frame>,
    reader_gone: bool,
    writer_gone: bool,
}

/// The model of one direction.
pub struct LaneView {
    pub queue: Seq<FrameView>,
    pub reader_gone: bool,
    pub writer_gone: bool,
}

/// The state of an in-memory layer-2 segment.
#[derive(Debug)]
pub struct Segment {
    to_a: Lane,
    to_b: Lane,
    closed: bool,
}

/// The model of a segment: the frames on their way to each end, whether an end
/// has hung up, and whether the segment was closed.
pub struct SegmentView {
    pub to_a: LaneView,
    pub to_b: LaneView,
    pub closed: bool,
}

impl SegmentView {
    /// The direction that leads to `end`.
    pub open spec fn lane_to(self, end: End) -> LaneView {
        match end {
            End::A => self.to_a,
            End::B => self.to_b,
        }
    }

    /// The segment with another lane to `end`.
    pub open spec fn with_lane_to(self, end: End, lane: LaneView) -> SegmentView {
        match end {
            End::A => SegmentView { to_a: lane, ..self },
            End::B => SegmentView { to_b: lane, ..self },
        }
    }

    /// Each direction holds at most as many frames as it buffers.
    pub open spec fn wf(self) -> bool {
        self.to_a.queue.len() <= PIPE_DEPTH && self.to_b.queue.len() <= PIPE_DEPTH
    }

    /// The segment after `f` was written at `from`.
    pub open spec fn written(self, from: End, f: FrameView) -> SegmentView {
        let lane = self.lane_to(from.other());
        if self.closed || lane.reader_gone || lane.queue.len() >= PIPE_DEPTH {
            self
        } else {
            self.with_lane_to(from.other(), LaneView { queue: lane.queue.push(f), ..lane })
        }
    }

    /// Whether a write at `from` is refused.
    pub open spec fn refuses(self, from: End) -> bool {
        self.closed || self.lane_to(from.other()).reader_gone
    }

    /// The segment after the next frame for `at` was taken.
    pub open spec fn taken(self, at: End) -> SegmentView {
        let lane = self.lane_to(at);
        if lane.queue.len() == 0 {
            self
        } else {
            self.with_lane_to(at, LaneView { queue: lane.queue.skip(1), ..lane })
        }
    }

    /// The segment after `end` was given up.
    pub open spec fn given_up(self, end: End) -> SegmentView {
        self.with_lane_to(end, LaneView { reader_gone: true, ..self.lane_to(end) }).with_lane_to(
            end.other(),
            LaneView { writer_gone: true, ..self.lane_to(end.other()) },
        )
    }

    /// The segment as `at` finds it while `ends` ends of it are held: where it
    /// is the only one, the other was given up.
    pub open spec fn held_by(self, at: End, ends: usize) -> SegmentView {
        if ends < 2 {
            self.given_up(at.other())
        } else {
            self
        }
    }
}

impl Lane {
    spec fn view(&self) -> LaneView {
        LaneView {
            queue: self.queue@.map_values(|f: Frame| f@),
            reader_gone: self.reader_gone,
            writer_gone: self.writer_gone,
        }
    }

    fn new() -> (l: Lane)
        ensures
            l.view().queue.len() == 0,
            !l.reader_gone,
            !l.writer_gone,
    {
        Lane { queue: Vec::new(), reader_gone: false, writer_gone: false }
    }

    fn put(&mut self, f: &Frame)
        ensures
            final(self).view() == (LaneView {
                queue: if old(self).view().queue.len() >= PIPE_DEPTH {
                    old(self).view().queue
                } else {
                    old(self).view().queue.push(f@)
                },
                ..old(self).view()
            }),
    {
        if self.queue.len() < PIPE_DEPTH {
            self.queue.push(f.clone());
        }
        proof {
            let want = if old(self).view().queue.len() >= PIPE_DEPTH {
                old(self).view().queue
            } else {
                old(self).view().queue.push(f@)
            };
            assert(self.view().queue =~= want);
        }
    }

    fn take(&mut self) -> (r: Option<Frame>)
        ensures
            match r {
                Some(f) => old(self).view().queue.len() > 0 && f@ == old(self).view().queue[0]
                    && final(self).view() == (LaneView {
                    queue: old(self).view().queue.skip(1),
                    ..old(self).view()
                }),
                None => old(self).view().queue.len() == 0 && final(self).view() == old(self).view(),
            },
    {
        if self.queue.len() == 0 {
            return None;
        }
        let f = self.queue.remove(0);
        assert(self.view().queue =~= old(self).view().queue.skip(1));
        Some(f)
    }
}

impl View for Segment {
    type V = SegmentView;

    closed spec fn view(&self) -> SegmentView {
        SegmentView { to_a: self.to_a.view(), to_b: self.to_b.view(), closed: self.closed }
    }
}

impl Segment {
    /// An open segment with nothing under way.
    pub fn new() -> (s: Segment)
        ensures
            s@.wf(),
            !s@.closed,
            forall|e: End|
                #![trigger s@.lane_to(e)]
                s@.lane_to(e).queue.len() == 0 && !s@.lane_to(e).reader_gone && !s@.lane_to(
                    e,
                ).writer_gone,
    {
        Segment { to_a: Lane::new(), to_b: Lane::new(), closed: false }
    }

    /// Sends `f` from `from` to the other end.
    ///
    /// A full pipe means the peer is not reading; dropping the frame is what a
    /// real segment does, and is better than stalling a publisher's
    /// retransmission clock.
    pub fn write_frame(&mut self, from: End, f: &Frame) -> (r: Result<()>)
        requires
            old(self)@.wf(),
        ensures
            final(self)@.wf(),
            final(self)@ == old(self)@.written(from, f@),
            r == (if old(self)@.refuses(from) {
                Err::<(), Error>(Error::Closed)
            } else {
                Ok(())
            }),
    {
        if self.closed {
            return Err(Error::Closed);
        }
        match from {
            End::A => {
                if self.to_b.reader_gone {
                    return Err(Error::Closed);
                }
                self.to_b.put(f);
            },
            End::B => {
                if self.to_a.reader_gone {
                    return Err(Error::Closed);
                }
                self.to_a.put(f);
            },
        }
        Ok(())
    }

    /// Takes the frame that waits longest for `at`, if there is one.
    pub fn try_read_frame(&mut self, at: End) -> (r: Option<Frame>)
        requires
            old(self)@.wf(),
        ensures
            final(self)@.wf(),
            final(self)@ == old(self)@.taken(at),
            match r {
                Some(f) => old(self)@.lane_to(at).queue.len() > 0 && f@ == old(self)@.lane_to(
                    at,
                ).queue[0],
                None => old(self)@.lane_to(at).queue.len() == 0,
            },
    {
        match at {
            End::A => self.to_a.take(),
            End::B => self.to_b.take(),
        }
    }

    /// One step of a blocking read at `at`: a closed segment delivers nothing
    /// more, and an empty one whose writer has hung up never will.
    pub fn poll_frame(&mut self, at: End) -> (r: Poll)
        requires
            old(self)@.wf(),
        ensures
            final(self)@.wf(),
            ({
                let lane = old(self)@.lane_to(at);
                if old(self)@.closed {
                    r is Closed && final(self)@ == old(self)@
                } else if lane.queue.len() > 0 {
                    &&& r matches Poll::Frame(f) && f@ == lane.queue[0]
                    &&& final(self)@ == old(self)@.taken(at)
                } else {
                    &&& final(self)@ == old(self)@
                    &&& if lane.writer_gone {
                        r is Closed
                    } else {
                        r is Wait
                    }
                }
            }),
    {
        if self.closed {
            return Poll::Closed;
        }
        match self.try_read_frame(at) {
            Some(f) => Poll::Frame(f),
            None => {
                let gone = match at {
                    End::A => self.to_a.writer_gone,
                    End::B => self.to_b.writer_gone,
                };
                if gone {
                    Poll::Closed
                } else {
                    Poll::Wait
                }
            },
        }
    }

    /// Closes the segment for both ends.
    pub fn close(&mut self)
        requires
            old(self)@.wf(),
        ensures
            final(self)@.wf(),
            final(self)@ == (SegmentView { closed: true, ..old(self)@ }),
    {
        self.closed = true;
    }

    /// Notes that `end` is gone: nothing reaches it any more, and nothing more
    /// comes from it than what is under way.
    pub fn hang_up(&mut self, end: End)
        requires
            old(self)@.wf(),
        ensures
            final(self)@.wf(),
            final(self)@ == old(self)@.given_up(end),
    {
        match end {
            End::A => {
                self.to_a.reader_gone = true;
                self.to_b.writer_gone = true;
            },
            End::B => {
                self.to_b.reader_gone = true;
                self.to_a.writer_gone = true;
            },
        }
    }

    /// Notes, at `at`, how many ends of the segment are still held.
    pub fn count_ends(&mut self, at: End, ends: usize)
        requires
            old(self)@.wf(),
        ensures
            final(self)@.wf(),
            final(self)@ == old(self)@.held_by(at, ends),
    {
        if ends < 2 {
            match at {
                End::A => self.hang_up(End::B),
                End::B => self.hang_up(End::A),
            }
        }
    }
}

/// What a shared segment always satisfies.
pub struct SegmentInv {}

impl RwLockPredicate<Segment> for SegmentInv {
    open spec fn inv(self, s: Segment) -> bool {
        s@.wf()
    }
}

/// One end of an in-memory layer-2 segment.
///
/// The two ends share one [`Segment`]; each call is one step of it, so what a
/// call does is what the segment's operation of the same name does. An end that
/// is dropped leaves the other as the segment's only holder, which is how the
/// other notices: its writes are refused, and its reads once it has taken what
/// is under way.
pub struct PipeEnd {
    segment: Arc<RwLock<Segment, SegmentInv>>,
    end: End,
}

/// How many ends of a segment are held, by `Arc::strong_count`.
///
/// Nothing is claimed of the number: another thread may drop its end at any
/// moment. It is read with the lock held, so that an end that is seen to be gone
/// has left nothing unseen in the segment.
#[verifier::external_body]
fn holders(segment: &Arc<RwLock<Segment, SegmentInv>>) -> usize {
    Arc::strong_count(segment)
}

/// Returns two connected in-memory interfaces: a frame written to one end is
/// delivered to the other end's reader.
///
/// It is the layer-2 analogue of a socket pair, used for tests and for
/// simulating a shared segment without a real NIC. Frames are copied on write,
/// so callers may reuse their buffers.
pub fn pipe() -> (p: (PipeEnd, PipeEnd))
    ensures
        p.0.side() == End::A,
        p.1.side() == End::B,
        p.0.lock() == p.1.lock(),
{
    let lock = RwLock::<Segment, SegmentInv>::new(Segment::new(), Ghost(SegmentInv {  }));
    let a = Arc::new(lock);
    let b = a.clone();
    (PipeEnd { segment: a, end: End::A }, PipeEnd { segment: b, end: End::B })
}

impl PipeEnd {
    /// Which end of its segment this is.
    pub closed spec fn side(&self) -> End {
        self.end
    }

    /// The lock around the segment.
    pub closed spec fn lock(&self) -> RwLock<Segment, SegmentInv> {
        *self.segment
    }

    /// Sends a frame to the other end; the only failure is that the segment is
    /// closed or the other end gone.
    pub fn write_frame(&self, f: &Frame) -> (r: Result<()>)
        ensures
            r matches Err(e) ==> e == Error::Closed,
    {
        let (mut segment, handle) = self.segment.acquire_write();
        segment.count_ends(self.end, holders(&self.segment));
        let r = segment.write_frame(self.end, f);
        handle.release_write(segment);
        r
    }

    /// One step of a blocking read; a reader repeats it until it is not told
    /// to wait.
    pub fn poll_frame(&self) -> Poll {
        let (mut segment, handle) = self.segment.acquire_write();
        segment.count_ends(self.end, holders(&self.segment));
        let r = segment.poll_frame(self.end);
        handle.release_write(segment);
        r
    }

    /// Takes a frame if one is already waiting, without blocking.
    ///
    /// A blocking read waits until a frame arrives or the pipe closes, which
    /// is right for a subscriber but leaves a test with no way to drain what
    /// has accumulated. This is that way.
    pub fn try_read_frame(&self) -> Option<Frame> {
        let (mut segment, handle) = self.segment.acquire_write();
        let r = segment.try_read_frame(self.end);
        handle.release_write(segment);
        r
    }

    /// Closes the segment for both ends.
    pub fn close(&self) -> (r: Result<()>)
        ensures
            r is Ok,
    {
        let (mut segment, handle) = self.segment.acquire_write();
        segment.close();
        handle.release_write(segment);
        Ok(())
    }
}

/// The segment after all of `frames` were written at `from`, one by one.
pub open spec fn written_all(s: SegmentView, from: End, frames: Seq<FrameView>) -> SegmentView
    decreases frames.len(),
{
    if frames.len() == 0 {
        s
    } else {
        written_all(s, from, frames.drop_last()).written(from, frames.last())
    }
}

/// Frames arrive in the order in which they were written, as long as the
/// reader keeps up: writing some that fit puts them behind what waits.
pub proof fn frames_arrive_in_order(s: SegmentView, from: End, frames: Seq<FrameView>)
    requires
        !s.refuses(from),
        s.lane_to(from.other()).queue.len() + frames.len() <= PIPE_DEPTH,
    ensures
        written_all(s, from, frames) == s.with_lane_to(
            from.other(),
            LaneView {
                queue: s.lane_to(from.other()).queue + frames,
                ..s.lane_to(from.other())
            },
        ),
    decreases frames.len(),
{
    let lane = s.lane_to(from.other());
    if frames.len() == 0 {
        assert(lane.queue + frames =~= lane.queue);
    } else {
        frames_arrive_in_order(s, from, frames.drop_last());
        assert((lane.queue + frames.drop_last()).push(frames.last()) =~= lane.queue + frames);
    }
}

/// The two directions are independent: writing at one end leaves what waits
/// for that end alone.
pub proof fn directions_are_independent(s: SegmentView, from: End, f: FrameView)
    ensures
        s.written(from, f).lane_to(from) == s.lane_to(from),
{
}

/// Once closed, a segment refuses every write and delivers nothing more
/// through a blocking read, at either end, however often it is closed.
pub proof fn closing_is_seen_at_both_ends(s: SegmentView, e: End)
    ensures
        (SegmentView { closed: true, ..s }).refuses(e),
        (SegmentView { closed: true, ..(SegmentView { closed: true, ..s }) }) == (SegmentView {
            closed: true,
            ..s
        }),
{
}

/// Once an end is given up, what the other end writes is refused, and what is
/// under way to it still arrives, with nothing to wait for behind it.
pub proof fn giving_an_end_up_is_seen_at_the_other(s: SegmentView, end: End)
    ensures
        s.given_up(end).refuses(end.other()),
        s.given_up(end).lane_to(end.other()).queue == s.lane_to(end.other()).queue,
        s.given_up(end).lane_to(end.other()).writer_gone,
        s.given_up(end).closed == s.closed,
{
}

/// A full direction drops what is written rather than failing.
pub proof fn full_pipe_drops(s: SegmentView, from: End, f: FrameView)
    requires
        !s.refuses(from),
        s.lane_to(from.other()).queue.len() == PIPE_DEPTH,
    ensures
        s.written(from, f) == s,
{
}

/// What is written at one end is what the other takes, in the order in which
/// it was written, and a look takes the oldest frame alone.
pub proof fn a_look_takes_the_oldest(s: SegmentView, at: End, f: FrameView)
    requires
        !s.closed,
        !s.lane_to(at).reader_gone,
        s.lane_to(at).queue.len() < PIPE_DEPTH,
    ensures
        ({
            let w = s.written(at.other(), f);
            &&& w.lane_to(at).queue.last() == f
            &&& w.lane_to(at).queue.drop_last() == s.lane_to(at).queue
            &&& w.lane_to(at.other()) == s.lane_to(at.other())
            &&& w.taken(at).lane_to(at).queue == w.lane_to(at).queue.drop_first()
            &&& w.taken(at).lane_to(at.other()) == s.lane_to(at.other())
            &&& w.taken(at).closed == s.closed
        }),
{
    let w = s.written(at.other(), f);
    assert(w.lane_to(at).queue.drop_last() =~= s.lane_to(at).queue);
    assert(w.taken(at).lane_to(at).queue =~= w.lane_to(at).queue.drop_first());
}

/// An end that is the only one held has lost its partner: it may write no
/// more; with both held nothing has changed.
pub proof fn a_lone_end_has_lost_its_partner(s: SegmentView, at: End, ends: usize)
    ensures
        ends >= 2 ==> s.held_by(at, ends) == s,
        ends < 2 ==> {
            &&& s.held_by(at, ends).refuses(at)
            &&& s.held_by(at, ends).lane_to(at).writer_gone
            &&& s.held_by(at, ends).lane_to(at).queue == s.lane_to(at).queue
            &&& s.held_by(at, ends).lane_to(at).reader_gone == s.lane_to(at).reader_gone
        },
{
}

} // verus!
