//! The session recorder: the state machine that groups incoming performer
//! events into discrete recordings separated by idle gaps, and mirrors every
//! accepted event onto the relay queue for live monitoring.
//!
//! Times are microsecond readings of one monotonic clock, supplied by the
//! caller. A new recording begins exactly when the recorder is not actively
//! recording at the moment an event arrives: the log is empty, or the last
//! stored event was not a still-engaged note and the gap since the last
//! accepted event has reached the idle timeout. The decision is made only
//! when the next event arrives; silence alone never closes a recording.

use vstd::prelude::*;
use crossbeam_queue::SegQueue;
use crate::events::{ControllerEvent, Recording, Speaker, SynthMsg, TimedEvent};
use crate::queue::{new_seg_queue, queue_contents, seg_queue_pop, seg_queue_push};

verus! {

/// The idle timeout a recorder starts with, in microseconds.
pub const DEFAULT_TIMEOUT: u64 = 2_000_000;

/// Mathematical state of a session recorder: the recording log, the relay
/// queue contents (oldest first), the idle timeout, and the clock readings
/// of the last accepted event and of the current recording's first event.
#[verifier::ext_equal]
pub ghost struct RecState {
    pub timeout: u64,
    pub recordings: Seq<Seq<TimedEvent>>,
    pub out: Seq<SynthMsg>,
    pub last_msg: u64,
    pub current_start: u64,
    pub solo_duration: Option<u64>,
    pub input_port_name: Seq<char>,
}

/// The last stored event of the current recording is a still-engaged note.
pub open spec fn last_event_engaged(s: RecState) -> bool {
    &&& s.recordings.len() > 0
    &&& s.recordings.last().len() > 0
    &&& s.recordings.last().last().msg.is_engaged_note()
}

/// Whether an event arriving at `now` continues the current recording:
/// the log is non-empty, and the last stored event is a still-engaged note
/// or the gap since the last accepted event is below the idle timeout.
pub open spec fn actively_recording_at(s: RecState, now: u64) -> bool {
    s.recordings.len() > 0 && (last_event_engaged(s) || now - s.last_msg < s.timeout)
}

/// The copy of `msg` that is mirrored onto the relay queue: same message,
/// routed to both speakers.
pub open spec fn routed(msg: SynthMsg) -> SynthMsg {
    SynthMsg { msg: msg.msg, speaker: Speaker::Both }
}

/// One step of the state machine: accept `msg` at clock reading `now`.
/// The routed copy is pushed to the relay queue unconditionally; the message
/// is appended to the current recording with its elapsed time, or opens a
/// new recording at elapsed time zero.
pub open spec fn receive_step(s: RecState, msg: SynthMsg, now: u64) -> RecState {
    let out1 = s.out.push(routed(msg));
    if actively_recording_at(s, now) {
        let e = TimedEvent { time: (now - s.current_start) as u64, msg: msg.msg };
        RecState {
            recordings: s.recordings.update(
                s.recordings.len() - 1,
                s.recordings.last().push(e),
            ),
            out: out1,
            last_msg: now,
            ..s
        }
    } else {
        let e = TimedEvent { time: 0, msg: msg.msg };
        RecState {
            recordings: s.recordings.push(seq![e]),
            out: out1,
            last_msg: now,
            current_start: now,
            ..s
        }
    }
}

/// Validity of a recorder state: the current recording started no later
/// than the last accepted event, and no recording in the log is empty.
pub open spec fn wf_state(s: RecState) -> bool {
    &&& s.current_start <= s.last_msg
    &&& forall|i: int| 0 <= i < s.recordings.len() ==> (#[trigger] s.recordings[i]).len() > 0
}

/// A run of the state machine: accept each of `inputs` in order, each pair
/// being a message and the clock reading of its arrival.
pub open spec fn run_steps(s: RecState, inputs: Seq<(SynthMsg, u64)>) -> RecState
    decreases inputs.len(),
{
    if inputs.len() == 0 {
        s
    } else {
        run_steps(receive_step(s, inputs.first().0, inputs.first().1), inputs.drop_first())
    }
}

/// The timestamped events that a run of `inputs` stores when the recording
/// it lands in started at clock reading `start`.
pub open spec fn run_events(inputs: Seq<(SynthMsg, u64)>, start: u64) -> Seq<TimedEvent> {
    Seq::new(
        inputs.len(),
        |i: int| (TimedEvent { time: (inputs[i].1 - start) as u64, msg: inputs[i].0.msg }),
    )
}

/// Arrival times of `inputs` never step back, and consecutive events are
/// less than `timeout` apart.
pub open spec fn times_within_timeout(inputs: Seq<(SynthMsg, u64)>, timeout: u64) -> bool {
    forall|i: int|
        0 < i < inputs.len() ==> inputs[i - 1].1 <= (#[trigger] inputs[i]).1 && inputs[i].1
            - inputs[i - 1].1 < timeout
}

/// Accepting an event preserves state validity and stamps the arrival time.
pub proof fn lemma_receive_step_wf(s: RecState, msg: SynthMsg, now: u64)
    requires
        wf_state(s),
        now >= s.last_msg,
    ensures
        wf_state(receive_step(s, msg, now)),
        receive_step(s, msg, now).last_msg == now,
{
    let s1 = receive_step(s, msg, now);
    assert forall|i: int| 0 <= i < s1.recordings.len() implies (#[trigger] s1.recordings[i]).len()
        > 0 by {
        if actively_recording_at(s, now) {
            if i < s.recordings.len() - 1 {
                assert(s1.recordings[i] == s.recordings[i]);
            }
        } else {
            if i < s.recordings.len() {
                assert(s1.recordings[i] == s.recordings[i]);
            }
        }
    }
}

/// The recording log is append-only through `receive`: its length never
/// decreases, every closed recording is left exactly as it was, and the
/// current recording only ever grows at its end. Only an explicit
/// `delete_last_recording` removes an entry, and that removes the most
/// recent one (see its postcondition).
pub proof fn lemma_log_append_only(s: RecState, msg: SynthMsg, now: u64)
    ensures
        receive_step(s, msg, now).recordings.len() >= s.recordings.len(),
        forall|i: int|
            0 <= i < s.recordings.len() - 1 ==> receive_step(s, msg, now).recordings[i]
                == s.recordings[i],
        s.recordings.len() > 0 ==> s.recordings.last().is_prefix_of(
            receive_step(s, msg, now).recordings[s.recordings.len() - 1],
        ),
{
    let s1 = receive_step(s, msg, now);
    if s.recordings.len() > 0 {
        if actively_recording_at(s, now) {
            assert(s1.recordings[s.recordings.len() - 1] == s.recordings.last().push(
                TimedEvent { time: (now - s.current_start) as u64, msg: msg.msg },
            ));
            assert(s.recordings.last().is_prefix_of(s1.recordings[s.recordings.len() - 1]));
        } else {
            assert(s1.recordings[s.recordings.len() - 1] == s.recordings.last());
            assert(s.recordings.last().is_prefix_of(s.recordings.last()));
        }
    }
}

/// Every accepted event produces exactly one corresponding push onto the
/// relay queue, independent of the active-idle decision: over any run, the
/// relay queue grows by exactly the routed copies of the accepted events,
/// in arrival order.
pub proof fn lemma_relay_one_push_each(s: RecState, inputs: Seq<(SynthMsg, u64)>)
    ensures
        run_steps(s, inputs).out =~= s.out + inputs.map_values(|p: (SynthMsg, u64)| routed(p.0)),
    decreases inputs.len(),
{
    let mirrored = inputs.map_values(|p: (SynthMsg, u64)| routed(p.0));
    if inputs.len() == 0 {
        assert(run_steps(s, inputs).out =~= s.out + mirrored);
    } else {
        let s1 = receive_step(s, inputs.first().0, inputs.first().1);
        lemma_relay_one_push_each(s1, inputs.drop_first());
        assert(s1.out =~= s.out.push(routed(inputs.first().0)));
        assert(inputs.drop_first().map_values(|p: (SynthMsg, u64)| routed(p.0)) =~= mirrored
            .drop_first());
        assert(s.out.push(routed(inputs.first().0)) + mirrored.drop_first() =~= s.out + mirrored);
    }
}

/// A run that starts while the recorder is actively recording, whose events
/// arrive in order and less than the timeout apart, extends the current
/// recording in place: nothing else in the log moves, the session start
/// stays put, and each event is stamped with its time since that start.
pub proof fn lemma_active_run_extends(s: RecState, inputs: Seq<(SynthMsg, u64)>)
    requires
        wf_state(s),
        s.recordings.len() > 0,
        times_within_timeout(inputs, s.timeout),
        inputs.len() > 0 ==> inputs[0].1 >= s.last_msg && actively_recording_at(s, inputs[0].1),
    ensures
        run_steps(s, inputs).recordings =~= s.recordings.update(
            s.recordings.len() - 1,
            s.recordings.last() + run_events(inputs, s.current_start),
        ),
        run_steps(s, inputs).current_start == s.current_start,
        run_steps(s, inputs).last_msg == if inputs.len() > 0 {
            inputs.last().1
        } else {
            s.last_msg
        },
        wf_state(run_steps(s, inputs)),
    decreases inputs.len(),
{
    if inputs.len() == 0 {
        assert(s.recordings.last() + run_events(inputs, s.current_start) =~= s.recordings.last());
        assert(run_steps(s, inputs).recordings =~= s.recordings.update(
            s.recordings.len() - 1,
            s.recordings.last(),
        ));
    } else {
        let m0 = inputs.first().0;
        let t0 = inputs.first().1;
        let rest = inputs.drop_first();
        let s1 = receive_step(s, m0, t0);
        let e0 = TimedEvent { time: (t0 - s.current_start) as u64, msg: m0.msg };
        lemma_receive_step_wf(s, m0, t0);
        assert(s1.recordings =~= s.recordings.update(
            s.recordings.len() - 1,
            s.recordings.last().push(e0),
        ));
        assert forall|i: int|
            0 < i < rest.len() implies rest[i - 1].1 <= (#[trigger] rest[i]).1 && rest[i].1
            - rest[i - 1].1 < s1.timeout by {
            assert(rest[i] == inputs[i + 1]);
            assert(rest[i - 1] == inputs[i]);
        }
        if rest.len() > 0 {
            assert(rest[0] == inputs[1]);
            assert(rest[0].1 >= t0);
            assert(rest[0].1 - s1.last_msg < s1.timeout);
            assert(actively_recording_at(s1, rest[0].1));
        }
        lemma_active_run_extends(s1, rest);
        assert(s1.recordings.last() =~= s.recordings.last().push(e0));
        assert(s1.recordings.last() + run_events(rest, s.current_start) =~= s.recordings.last()
            + run_events(inputs, s.current_start)) by {
            let lhs = s1.recordings.last() + run_events(rest, s.current_start);
            let rhs = s.recordings.last() + run_events(inputs, s.current_start);
            assert(lhs.len() == rhs.len());
            assert forall|j: int| 0 <= j < rhs.len() implies lhs[j] == rhs[j] by {
                let n = s.recordings.last().len();
                if j < n {
                } else if j == n {
                    assert(lhs[j] == e0);
                    assert(rhs[j] == run_events(inputs, s.current_start)[0]);
                } else {
                    assert(lhs[j] == run_events(rest, s.current_start)[j - n - 1]);
                    assert(rest[j - n - 1] == inputs[j - n]);
                    assert(rhs[j] == run_events(inputs, s.current_start)[j - n]);
                }
            }
        }
        assert(run_steps(s, inputs).recordings =~= s.recordings.update(
            s.recordings.len() - 1,
            s.recordings.last() + run_events(inputs, s.current_start),
        ));
    }
}

/// Events pushed less than the idle timeout apart land in a single
/// recording, in arrival order, with elapsed times measured from the first
/// event of that run: a run that begins while the recorder is idle appends
/// exactly one new recording holding exactly those events.
pub proof fn lemma_fast_events_one_recording(s: RecState, inputs: Seq<(SynthMsg, u64)>)
    requires
        wf_state(s),
        inputs.len() > 0,
        inputs[0].1 >= s.last_msg,
        !actively_recording_at(s, inputs[0].1),
        times_within_timeout(inputs, s.timeout),
    ensures
        run_steps(s, inputs).recordings =~= s.recordings.push(run_events(inputs, inputs[0].1)),
{
    let m0 = inputs.first().0;
    let t0 = inputs.first().1;
    let rest = inputs.drop_first();
    let s1 = receive_step(s, m0, t0);
    let e0 = TimedEvent { time: 0, msg: m0.msg };
    lemma_receive_step_wf(s, m0, t0);
    assert(s1.recordings =~= s.recordings.push(seq![e0]));
    assert(s1.current_start == t0);
    assert forall|i: int|
        0 < i < rest.len() implies rest[i - 1].1 <= (#[trigger] rest[i]).1 && rest[i].1 - rest[i
        - 1].1 < s1.timeout by {
        assert(rest[i] == inputs[i + 1]);
        assert(rest[i - 1] == inputs[i]);
    }
    if rest.len() > 0 {
        assert(rest[0] == inputs[1]);
        assert(rest[0].1 >= t0);
        assert(rest[0].1 - s1.last_msg < s1.timeout);
        assert(actively_recording_at(s1, rest[0].1));
    }
    lemma_active_run_extends(s1, rest);
    assert(s1.recordings.last() =~= seq![e0]);
    assert(seq![e0] + run_events(rest, t0) =~= run_events(inputs, t0)) by {
        let lhs = seq![e0] + run_events(rest, t0);
        let rhs = run_events(inputs, t0);
        assert(lhs.len() == rhs.len());
        assert forall|j: int| 0 <= j < rhs.len() implies lhs[j] == rhs[j] by {
            if j == 0 {
                assert(rhs[0] == (TimedEvent { time: (t0 - t0) as u64, msg: m0.msg }));
            } else {
                assert(lhs[j] == run_events(rest, t0)[j - 1]);
                assert(rest[j - 1] == inputs[j]);
            }
        }
    }
    assert(run_steps(s, inputs).recordings =~= s1.recordings.update(
        s1.recordings.len() - 1,
        s1.recordings.last() + run_events(rest, t0),
    ));
    assert(run_steps(s, inputs).recordings =~= s.recordings.push(run_events(inputs, t0)));
}

/// When the gap since the last accepted event exceeds the idle timeout and
/// the last stored event was not a still-engaged note, the arriving event
/// opens a new recording whose first elapsed time is zero.
pub proof fn lemma_idle_gap_new_recording(s: RecState, msg: SynthMsg, now: u64)
    requires
        !last_event_engaged(s),
        now - s.last_msg > s.timeout,
    ensures
        receive_step(s, msg, now).recordings =~= s.recordings.push(
            seq![(TimedEvent { time: 0, msg: msg.msg })],
        ),
        receive_step(s, msg, now).current_start == now,
{
}

/// The session recorder and data owner. It holds the recording log and the
/// relay queue; callers on other threads reach it only through one mutual
/// exclusion boundary around the whole value.
pub struct Recorder {
    /// Idle timeout in microseconds.
    pub timeout: u64,
    recordings: Vec<Recording>,
    solo_duration: Option<u64>,
    outgoing: SegQueue<SynthMsg>,
    last_msg: u64,
    current_start: u64,
    input_port_name: String,
}

impl View for Recorder {
    type V = RecState;

    closed spec fn view(&self) -> RecState {
        RecState {
            timeout: self.timeout,
            recordings: self.recordings@.map_values(|r: Recording| r@),
            out: queue_contents(self.outgoing),
            last_msg: self.last_msg,
            current_start: self.current_start,
            solo_duration: self.solo_duration,
            input_port_name: self.input_port_name@,
        }
    }
}

impl Recorder {
    /// Validity of this recorder's state.
    pub open spec fn wf(&self) -> bool {
        wf_state(self@)
    }

    /// A recorder with an empty log and an empty relay queue, created at
    /// clock reading `now`.
    pub fn new(timeout: u64, input_port_name: String, now: u64) -> (r: Recorder)
        ensures
            r@ == (RecState {
                timeout,
                recordings: Seq::<Seq<TimedEvent>>::empty(),
                out: Seq::<SynthMsg>::empty(),
                last_msg: now,
                current_start: now,
                solo_duration: None,
                input_port_name: input_port_name@,
            }),
            r.wf(),
    {
        let r = Recorder {
            timeout,
            recordings: Vec::new(),
            solo_duration: None,
            outgoing: new_seg_queue(),
            last_msg: now,
            current_start: now,
            input_port_name,
        };
        proof {
            assert(r@.recordings =~= Seq::<Seq<TimedEvent>>::empty());
        }
        r
    }

    /// Whether an event arriving at clock reading `now` would continue the
    /// current recording rather than open a new one.
    pub fn actively_recording(&self, now: u64) -> (r: bool)
        ensures
            r == actively_recording_at(self@, now),
    {
        if self.recordings.len() == 0 {
            return false;
        }
        let rec = &self.recordings[self.recordings.len() - 1];
        let engaged = match rec.last() {
            Some(e) => e.msg.is_engaged(),
            None => false,
        };
        if engaged {
            true
        } else if now >= self.last_msg {
            now - self.last_msg < self.timeout
        } else {
            true
        }
    }

    /// The routing hint put on every mirrored copy.
    pub fn live_speaker(&self) -> (s: Speaker)
        ensures
            s == Speaker::Both,
    {
        Speaker::Both
    }

    /// Accepts one event at clock reading `now`: mirrors a routed copy onto
    /// the relay queue, then appends the message to the current recording
    /// with its elapsed time, or opens a new recording at elapsed time zero.
    /// Exactly one message is pushed to the relay queue, whatever the
    /// active-idle decision was.
    pub fn receive(&mut self, msg: SynthMsg, now: u64)
        requires
            old(self).wf(),
            now >= old(self)@.last_msg,
        ensures
            final(self)@ == receive_step(old(self)@, msg, now),
            final(self).wf(),
    {
        let ghost s0 = self@;
        let actively = self.actively_recording(now);
        let mut out_msg = msg;
        out_msg.speaker = self.live_speaker();
        seg_queue_push(&mut self.outgoing, out_msg);
        if !actively {
            self.recordings.push(Recording::new());
            self.current_start = now;
        }
        let time: u64 = now - self.current_start;
        let n: usize = self.recordings.len();
        let rec = &mut self.recordings[n - 1];
        rec.add_message(time, msg.msg);
        self.last_msg = now;
        proof {
            let s1 = receive_step(s0, msg, now);
            assert(self@.recordings =~= s1.recordings);
            assert(self@ =~= s1);
            assert forall|i: int| 0 <= i < self@.recordings.len() implies (#[trigger] self@
                .recordings[i]).len() > 0 by {
                if actively_recording_at(s0, now) {
                    if i < s0.recordings.len() - 1 {
                        assert(self@.recordings[i] == s0.recordings[i]);
                    }
                } else {
                    if i < s0.recordings.len() {
                        assert(self@.recordings[i] == s0.recordings[i]);
                    }
                }
            }
        }
    }

    /// Pushes a program-change command directly onto the relay queue,
    /// bypassing the recording log entirely: the log, the timeout and all
    /// clock readings are left exactly as they were.
    pub fn program_change(&mut self, program: u8, speaker: Speaker)
        ensures
            final(self)@ == (RecState {
                out: old(self)@.out.push(
                    (SynthMsg { msg: ControllerEvent::ProgramChange { program }, speaker }),
                ),
                ..old(self)@
            }),
    {
        let ghost s0 = self@;
        let m = SynthMsg::program_change(program, speaker);
        seg_queue_push(&mut self.outgoing, m);
        proof {
            assert(self@ =~= (RecState { out: s0.out.push(m), ..s0 }));
        }
    }

    /// Hands the playback stage the oldest not-yet-delivered message on the
    /// relay queue, or `None` when the queue is drained. The recording log
    /// is left untouched.
    pub fn pop_outgoing(&mut self) -> (r: Option<SynthMsg>)
        ensures
            match r {
                Some(m) => old(self)@.out.len() > 0 && m == old(self)@.out.first()
                    && final(self)@ == (RecState {
                    out: old(self)@.out.drop_first(),
                    ..old(self)@
                }),
                None => old(self)@.out.len() == 0 && final(self)@ == old(self)@,
            },
    {
        let ghost s0 = self@;
        let r = seg_queue_pop(&mut self.outgoing);
        proof {
            if r is Some {
                assert(self@ =~= (RecState { out: s0.out.drop_first(), ..s0 }));
            } else {
                assert(self@ =~= s0);
            }
        }
        r
    }

    /// Number of recordings, including the in-progress one if any.
    pub fn len(&self) -> (n: usize)
        ensures
            n == self@.recordings.len(),
    {
        self.recordings.len()
    }

    /// Whether the log holds no recording at all.
    pub fn is_empty(&self) -> (b: bool)
        ensures
            b == (self@.recordings.len() == 0),
    {
        self.len() == 0
    }

    /// Removes the most recent recording if the log is non-empty; a no-op
    /// otherwise. Nothing else removes or reorders recordings.
    pub fn delete_last_recording(&mut self)
        ensures
            old(self)@.recordings.len() > 0 ==> final(self)@ == (RecState {
                recordings: old(self)@.recordings.drop_last(),
                ..old(self)@
            }),
            old(self)@.recordings.len() == 0 ==> final(self)@ == old(self)@,
            old(self).wf() ==> final(self).wf(),
    {
        let ghost s0 = self@;
        if self.recordings.len() > 0 {
            self.recordings.pop();
            proof {
                assert(self@.recordings =~= s0.recordings.drop_last());
                assert(self@ =~= (RecState { recordings: s0.recordings.drop_last(), ..s0 }));
                if wf_state(s0) {
                    assert forall|i: int| 0 <= i < self@.recordings.len() implies (
                    #[trigger] self@.recordings[i]).len() > 0 by {
                        assert(self@.recordings[i] == s0.recordings[i]);
                    }
                }
            }
        }
    }

    /// Read-only access to one recording; callers must check `len` first.
    pub fn index(&self, index: usize) -> (r: &Recording)
        requires
            index < self@.recordings.len(),
        ensures
            r@ == self@.recordings[index as int],
    {
        &self.recordings[index]
    }

    /// The name of the input port this recorder was created for.
    pub fn input_port_name(&self) -> (r: &str)
        ensures
            r@ == self@.input_port_name,
    {
        self.input_port_name.as_str()
    }

    /// Whether a solo is in progress.
    pub fn actively_soloing(&self) -> (b: bool)
        ensures
            b == self@.solo_duration.is_some(),
    {
        self.solo_duration.is_some()
    }

    /// The clock reading of the last accepted event; a caller feeding the
    /// recorder from a monotonic clock never passes `receive` anything
    /// smaller.
    pub fn last_msg_time(&self) -> (t: u64)
        ensures
            t == self@.last_msg,
    {
        self.last_msg
    }
}

} // verus!

