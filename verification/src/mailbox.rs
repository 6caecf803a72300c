//! Frames waiting between the port reader and the show.
//!
//! The reader hands over decoded frames through a small queue. Frames carry
//! absolute state, so under a stall the newest is the only one that matters:
//! a full queue drops its oldest frame, never the one arriving.

use std::collections::VecDeque;

use vstd::prelude::*;

use crate::protocol::{outcome_of, parse_line, Frame, LineOutcome, ParseError, line_outcome};

verus! {

/// How many frames the mailbox holds before it starts dropping the oldest.
pub const MAILBOX_DEPTH: usize = 32;

/// What the reader is currently doing.
#[derive(Debug, PartialEq, Eq, Default)]
pub enum LinkStatus {
    /// Trying to open the port.
    #[default]
    Opening,
    /// Port open, frames expected.
    Reading,
    /// The last attempt to open the port failed.
    Failed(String),
}

impl LinkStatus {
    /// A copy of this status.
    pub fn duplicate(&self) -> (r: LinkStatus)
        ensures
            r == *self,
    {
        match self {
            LinkStatus::Opening => LinkStatus::Opening,
            LinkStatus::Reading => LinkStatus::Reading,
            LinkStatus::Failed(why) => LinkStatus::Failed(why.clone()),
        }
    }
}

/// Frames waiting to be read by the show, newest last.
#[derive(Debug, Default)]
pub struct Mailbox {
    queue: VecDeque<Frame>,
    status: LinkStatus,
}

/// The queue after `frame` arrives: the oldest frame goes first if the queue
/// is already full.
pub open spec fn queued(queue: Seq<Frame>, frame: Frame) -> Seq<Frame> {
    if queue.len() >= MAILBOX_DEPTH {
        queue.drop_first().push(frame)
    } else {
        queue.push(frame)
    }
}

impl Mailbox {
    /// The frames waiting, oldest first.
    pub closed spec fn frames(&self) -> Seq<Frame> {
        self.queue@
    }

    /// What the reader reported last.
    pub closed spec fn current_status(&self) -> LinkStatus {
        self.status
    }

    /// An empty mailbox whose reader is still opening the port.
    pub fn new() -> (m: Mailbox)
        ensures
            m.frames() == Seq::<Frame>::empty(),
            m.current_status() == LinkStatus::Opening,
    {
        Mailbox { queue: VecDeque::new(), status: LinkStatus::Opening }
    }

    /// Take everything waiting, oldest first.
    pub fn drain(&mut self) -> (r: Vec<Frame>)
        ensures
            r@ == old(self).frames(),
            final(self).frames() == Seq::<Frame>::empty(),
            final(self).current_status() == old(self).current_status(),
    {
        let mut out: Vec<Frame> = Vec::new();
        while self.queue.len() > 0
            invariant
                out@ + self.queue@ == old(self).queue@,
                self.status == old(self).status,
            decreases self.queue@.len(),
        {
            let ghost before = self.queue@;
            match self.queue.pop_front() {
                Some(frame) => {
                    out.push(frame);
                    assert(out@ + self.queue@ =~= old(self).queue@);
                },
                None => {},
            }
        }
        assert(out@ =~= old(self).queue@);
        out
    }

    /// What the reader is doing right now.
    pub fn status(&self) -> (r: LinkStatus)
        ensures
            r == self.current_status(),
    {
        self.status.duplicate()
    }

    /// Record what the reader is doing.
    pub fn set_status(&mut self, next: LinkStatus)
        ensures
            final(self).current_status() == next,
            final(self).frames() == old(self).frames(),
    {
        self.status = next;
    }

    /// Queue a frame, dropping the oldest if the mailbox is full.
    pub fn push(&mut self, frame: Frame)
        ensures
            final(self).frames() == queued(old(self).frames(), frame),
            final(self).current_status() == old(self).current_status(),
    {
        if self.queue.len() >= MAILBOX_DEPTH {
            let _ = self.queue.pop_front();
        }
        self.queue.push_back(frame);
    }

    /// Decode one line from the port and queue what it carries.
    ///
    /// A comment or blank queues nothing; a line that does not decode is one
    /// lost frame, not a reason to give up the port, and its error is handed
    /// back for the log.
    pub fn ingest_line(&mut self, line: &str) -> (r: Result<(), ParseError>)
        ensures
            final(self).current_status() == old(self).current_status(),
            match line_outcome(line@) {
                LineOutcome::Decoded(frame) => r is Ok && final(self).frames() == queued(
                    old(self).frames(),
                    frame,
                ),
                LineOutcome::Nothing => r is Ok && final(self).frames() == old(self).frames(),
                _ => r is Err && outcome_of(Err(r->Err_0)) == line_outcome(line@)
                    && final(self).frames() == old(self).frames(),
            },
    {
        match parse_line(line) {
            Ok(Some(frame)) => {
                self.push(frame);
                Ok(())
            },
            Ok(None) => Ok(()),
            Err(e) => Err(e),
        }
    }
}

/// The mailbox never holds more than [`MAILBOX_DEPTH`] frames, and the frame
/// just queued is always the newest one kept.
pub proof fn lemma_queue_is_bounded_and_keeps_the_newest(queue: Seq<Frame>, frame: Frame)
    requires
        queue.len() <= MAILBOX_DEPTH,
    ensures
        queued(queue, frame).len() <= MAILBOX_DEPTH,
        queued(queue, frame).last() == frame,
        queue.len() < MAILBOX_DEPTH ==> queued(queue, frame) == queue.push(frame),
{
}

/// A push keeps the newest frames: the result is the last
/// `min(queue.len() + 1, MAILBOX_DEPTH)` frames of everything queued so far
/// with the new one after them, so a full queue loses its oldest frame and
/// nothing else.
pub proof fn lemma_push_keeps_the_newest_frames(queue: Seq<Frame>, frame: Frame)
    requires
        queue.len() <= MAILBOX_DEPTH,
    ensures
        ({
            let all = queue.push(frame);
            let kept = queued(queue, frame);
            &&& kept.len() == if all.len() <= MAILBOX_DEPTH {
                all.len()
            } else {
                MAILBOX_DEPTH as nat
            }
            &&& forall|i: int|
                0 <= i < kept.len() ==> #[trigger] kept[i] == all[all.len() - kept.len() + i]
        }),
{
}

} // verus!
