//! Filling a buffer from a source that may hand out less than it is asked for.

use vstd::prelude::*;

verus! {

/// What one read came to.
#[derive(Debug, Clone, Copy, PartialEq, Eq, Structural)]
pub enum ReadEvent {
    /// So many bytes were read. None are at the end of the data.
    Bytes(usize),
    /// The read was interrupted before it read anything.
    Interrupted,
    /// The read failed.
    Failed,
}

/// How far a buffer has been filled.
#[derive(Debug, Clone, Copy, PartialEq, Eq, Structural)]
pub struct Fill {
    /// Bytes that the buffer has room for.
    pub wanted: usize,
    /// Bytes that are there.
    pub filled: usize,
    /// Whether the data has ended.
    pub ended: bool,
    /// Whether a read failed.
    pub failed: bool,
}

impl Fill {
    /// Whether no more is there than the buffer has room for.
    pub open spec fn wf(self) -> bool {
        self.filled <= self.wanted
    }

    /// Whether another read is due: until the buffer is full, the data has
    /// ended, or a read has failed.
    pub open spec fn due(self) -> bool {
        self.filled < self.wanted && !self.ended && !self.failed
    }

    /// Whether `event` can be what a read into the rest of the buffer came to.
    pub open spec fn fits(self, event: ReadEvent) -> bool {
        event matches ReadEvent::Bytes(n) ==> self.filled + n <= self.wanted
    }

    /// The state after one more read.
    pub open spec fn next(self, event: ReadEvent) -> Fill {
        match event {
            ReadEvent::Bytes(n) => if n == 0 {
                Fill { ended: true, ..self }
            } else {
                Fill { filled: (self.filled + n) as usize, ..self }
            },
            ReadEvent::Interrupted => self,
            ReadEvent::Failed => Fill { failed: true, ..self },
        }
    }

    /// Starts to fill a buffer.
    pub fn new(wanted: usize) -> (r: Fill)
        ensures
            r == (Fill { wanted, filled: 0, ended: false, failed: false }),
            r.wf(),
    {
        Fill { wanted, filled: 0, ended: false, failed: false }
    }

    /// Whether another read is due.
    pub fn read_due(&self) -> (r: bool)
        ensures
            r == self.due(),
    {
        self.filled < self.wanted && !self.ended && !self.failed
    }

    /// Takes one more read into account.
    pub fn step(self, event: ReadEvent) -> (r: Fill)
        requires
            self.wf(),
            self.fits(event),
        ensures
            r == self.next(event),
            r.wf(),
    {
        let mut after: Fill = self;
        match event {
            ReadEvent::Bytes(n) => if n == 0 {
                after.ended = true;
            } else {
                after.filled = self.filled + n;
            },
            ReadEvent::Interrupted => {},
            ReadEvent::Failed => {
                after.failed = true;
            },
        }
        after
    }
}

/// The state after the reads `events`, one after the other.
pub open spec fn after_all(start: Fill, events: Seq<ReadEvent>) -> Fill
    decreases events.len(),
{
    if events.len() == 0 {
        start
    } else {
        after_all(start, events.drop_last()).next(events.last())
    }
}

/// Bytes that the reads `events` brought.
pub open spec fn brought(events: Seq<ReadEvent>) -> int
    decreases events.len(),
{
    if events.len() == 0 {
        0
    } else {
        brought(events.drop_last()) + match events.last() {
            ReadEvent::Bytes(n) => n as int,
            _ => 0,
        }
    }
}

/// A buffer comes back short only at the end of the data: where no read is due
/// any more and none failed, the buffer is full or some read found the end, and
/// what is there is what the reads brought.
pub proof fn law_short_only_at_the_end(wanted: usize, events: Seq<ReadEvent>)
    requires
        0 <= brought(events) <= wanted,
    ensures
        ({
            let state = after_all(
                Fill { wanted, filled: 0, ended: false, failed: false },
                events,
            );
            &&& state.wanted == wanted
            &&& state.filled == brought(events)
            &&& state.ended <==> events.contains(ReadEvent::Bytes(0))
            &&& state.failed <==> events.contains(ReadEvent::Failed)
            &&& !state.due() && !state.failed ==> state.filled == wanted || events.contains(
                ReadEvent::Bytes(0),
            )
        }),
    decreases events.len(),
{
    if events.len() > 0 {
        let before = events.drop_last();
        lemma_brought(before);
        law_short_only_at_the_end(wanted, before);
        let last = events.last();
        assert(events =~= before.push(last));
        assert forall|e: ReadEvent| events.contains(e) <==> before.contains(e) || last == e by {
            if before.contains(e) {
                let i = choose|i: int| 0 <= i < before.len() && before[i] == e;
                assert(events[i] == e);
            }
            if last == e {
                assert(events[events.len() - 1] == e);
            }
            if events.contains(e) && last != e {
                let i = choose|i: int| 0 <= i < events.len() && events[i] == e;
                assert(before[i] == e);
            }
        }
    }
}

proof fn lemma_brought(events: Seq<ReadEvent>)
    ensures
        0 <= brought(events),
    decreases events.len(),
{
    if events.len() > 0 {
        lemma_brought(events.drop_last());
    }
}

} // verus!
