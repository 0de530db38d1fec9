//! The event model: performer messages, their routing hints, and recordings.
//!
//! A controller event is immutable once created and cheaply duplicable; the
//! recorder stores the message part of each accepted event and mirrors a
//! routed copy onto the relay queue.

use vstd::prelude::*;

verus! {

/// Which output channel(s) a message should be mirrored to.
#[derive(Copy, Clone, Eq, PartialEq, Debug, Structural)]
pub enum Speaker {
    Left,
    Right,
    Both,
}

/// One performer-input message, reduced to what the recorder reads of it:
/// note events carry pitch and velocity, program changes carry the program
/// number, and any other message is carried through opaquely.
#[derive(Copy, Clone, Eq, PartialEq, Debug, Structural)]
pub enum ControllerEvent {
    NoteOn { pitch: u8, velocity: u8 },
    NoteOff { pitch: u8, velocity: u8 },
    ProgramChange { program: u8 },
    Other,
}

impl ControllerEvent {
    /// A note-engaged event: a note-on with non-zero intensity.
    pub open spec fn is_engaged_note(self) -> bool {
        match self {
            ControllerEvent::NoteOn { pitch, velocity } => velocity > 0,
            _ => false,
        }
    }

    /// Runtime test for [`Self::is_engaged_note`].
    pub fn is_engaged(&self) -> (b: bool)
        ensures
            b == self.is_engaged_note(),
    {
        match self {
            ControllerEvent::NoteOn { pitch: _, velocity } => *velocity > 0,
            _ => false,
        }
    }
}

/// A controller event together with its routing hint, as carried by the
/// queues between the pipeline stages.
#[derive(Copy, Clone, Eq, PartialEq, Debug, Structural)]
pub struct SynthMsg {
    pub msg: ControllerEvent,
    pub speaker: Speaker,
}

impl SynthMsg {
    /// The program-change command that callers inject onto the relay queue.
    pub fn program_change(program: u8, speaker: Speaker) -> (m: SynthMsg)
        ensures
            m == (SynthMsg { msg: ControllerEvent::ProgramChange { program }, speaker }),
    {
        SynthMsg { msg: ControllerEvent::ProgramChange { program }, speaker }
    }
}

/// A message stamped with its elapsed time: microseconds since the start of
/// the recording it belongs to.
#[derive(Copy, Clone, Eq, PartialEq, Debug, Structural)]
pub struct TimedEvent {
    pub time: u64,
    pub msg: ControllerEvent,
}

/// One contiguous span of musical activity: an ordered, append-only
/// sequence of timestamped events.
#[derive(Debug)]
pub struct Recording {
    events: Vec<TimedEvent>,
}

impl View for Recording {
    type V = Seq<TimedEvent>;

    closed spec fn view(&self) -> Seq<TimedEvent> {
        self.events@
    }
}

impl Recording {
    /// An empty recording.
    pub fn new() -> (r: Recording)
        ensures
            r@ == Seq::<TimedEvent>::empty(),
    {
        Recording { events: Vec::new() }
    }

    /// Appends one message with its elapsed time.
    pub fn add_message(&mut self, time: u64, msg: ControllerEvent)
        ensures
            final(self)@ == old(self)@.push(TimedEvent { time, msg }),
    {
        self.events.push(TimedEvent { time, msg });
    }

    /// How many events this recording holds.
    pub fn len(&self) -> (n: usize)
        ensures
            n == self@.len(),
    {
        self.events.len()
    }

    /// The most recently appended event, if any.
    pub fn last(&self) -> (r: Option<TimedEvent>)
        ensures
            match r {
                Some(e) => self@.len() > 0 && e == self@.last(),
                None => self@.len() == 0,
            },
    {
        if self.events.len() > 0 {
            Some(self.events[self.events.len() - 1])
        } else {
            None
        }
    }

    /// The event at position `i`; callers must check `len` first.
    pub fn get(&self, i: usize) -> (e: TimedEvent)
        requires
            i < self@.len(),
        ensures
            e == self@[i as int],
    {
        self.events[i]
    }

    /// A copy of the whole event sequence, oldest first.
    pub fn midi_queue(&self) -> (v: Vec<TimedEvent>)
        ensures
            v@ == self@,
    {
        let mut v: Vec<TimedEvent> = Vec::new();
        let mut i: usize = 0;
        while i < self.events.len()
            invariant
                i <= self.events.len(),
                v@ == self.events@.subrange(0, i as int),
            decreases self.events.len() - i,
        {
            v.push(self.events[i]);
            proof {
                assert(v@ =~= self.events@.subrange(0, i + 1));
            }
            i = i + 1;
        }
        proof {
            assert(v@ =~= self.events@);
        }
        v
    }
}

impl Default for Recording {
    /// An empty recording.
    fn default() -> (r: Recording)
        ensures
            r@ == Seq::<TimedEvent>::empty(),
    {
        Recording::new()
    }
}

} // verus!
