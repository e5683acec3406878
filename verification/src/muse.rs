//! The playback scheduler: a reader owns the two parsed event queues
//! and a shared playback record, and its operations are the decision
//! core of a play/pause/resume session. The hosting application runs
//! the worker loop: it reads the wall clock, calls `tick`, and hands
//! the fired events to its `onEvent` handler; `play`, `pause` and
//! `stop` are the controller operations.

use std::collections::VecDeque;
use vstd::prelude::*;
use crate::chart::{
    chart_lines, chart_ok, events_of, first_bad_line, note_events_of, other_events_of,
    parse_chart, MuseEvent, NoteDeserializeError,
};

verus! {

/// The shared playback record. Times are wall-clock epoch milliseconds;
/// a start time of 0 means "never started or fully finished", a pause
/// time of 0 means "not currently paused".
pub ghost struct PlaybackState {
    pub playing: bool,
    pub absolute_start_time: int,
    pub absolute_pause_time: int,
}

/// The playback records a session can reach: times fit the machine word
/// that stores them, the pause instant is only set while not playing,
/// and a recorded pause never precedes the session start.
pub open spec fn state_wf(s: PlaybackState) -> bool {
    &&& 0 <= s.absolute_start_time <= u128::MAX
    &&& 0 <= s.absolute_pause_time <= u128::MAX
    &&& s.playing ==> s.absolute_pause_time == 0
    &&& s.absolute_pause_time != 0 ==> s.absolute_start_time <= s.absolute_pause_time
}

/// The start transition of `play` at clock reading `now`: a no-op when
/// already running; otherwise the run flag turns on and the start time
/// becomes the resume-shifted start (absorbing the paused interval), the
/// clock reading (fresh session), or stays (never paused, already
/// started). The second component is the instant handed to `onStart`,
/// `None` when no session was started.
pub open spec fn spec_play(s: PlaybackState, now: int) -> (PlaybackState, Option<int>) {
    if s.playing {
        (s, None)
    } else {
        let start = if s.absolute_pause_time != 0 {
            s.absolute_start_time + (now - s.absolute_pause_time)
        } else if s.absolute_start_time == 0 {
            now
        } else {
            s.absolute_start_time
        };
        (
            PlaybackState { playing: true, absolute_start_time: start, absolute_pause_time: 0 },
            Some(start),
        )
    }
}

/// The pause transition at clock reading `now`: a no-op when not
/// running; otherwise the run flag turns off and the pause instant is
/// recorded, leaving the start time and the queues untouched.
pub open spec fn spec_pause(s: PlaybackState, now: int) -> PlaybackState {
    if s.playing {
        PlaybackState { playing: false, absolute_pause_time: now, ..s }
    } else {
        s
    }
}

/// The instant an event becomes due: a lead of `lead` ms before its
/// nominal time, clamped at chart time zero so an early event fires
/// immediately instead of underflowing.
pub open spec fn due_time(time: int, lead: int) -> int {
    if time >= lead {
        time - lead
    } else {
        0
    }
}

/// Whether an event is due at clock `now` for a session started at
/// `start`.
pub open spec fn event_due(ev: MuseEvent, lead: int, start: int, now: int) -> bool {
    now >= start + due_time(ev.0 as int, lead)
}

/// Length of the longest prefix of `q` every event of which is due:
/// exactly the events a front-popping drain fires.
pub open spec fn due_count(q: Seq<MuseEvent>, lead: int, start: int, now: int) -> int
    decreases q.len(),
{
    if q.len() == 0 || !event_due(q[0], lead, start, now) {
        0
    } else {
        1 + due_count(q.drop_first(), lead, start, now)
    }
}

pub proof fn lemma_due_count(q: Seq<MuseEvent>, lead: int, start: int, now: int)
    ensures
        0 <= due_count(q, lead, start, now) <= q.len(),
        forall|j: int| 0 <= j < due_count(q, lead, start, now) ==> event_due(q[j], lead, start, now),
        due_count(q, lead, start, now) < q.len() ==> !event_due(
            q[due_count(q, lead, start, now)],
            lead,
            start,
            now,
        ),
    decreases q.len(),
{
    if q.len() > 0 && event_due(q[0], lead, start, now) {
        lemma_due_count(q.drop_first(), lead, start, now);
        let c = due_count(q, lead, start, now);
        assert forall|j: int| 0 <= j < c implies event_due(q[j], lead, start, now) by {
            if j > 0 {
                assert(q.drop_first()[j - 1] == q[j]);
            }
        }
        if c < q.len() {
            assert(q.drop_first()[c - 1] == q[c]);
        }
    }
}

pub proof fn lemma_due_count_unique(q: Seq<MuseEvent>, lead: int, start: int, now: int, j: int)
    requires
        0 <= j <= q.len(),
        forall|m: int| 0 <= m < j ==> event_due(q[m], lead, start, now),
        j < q.len() ==> !event_due(q[j], lead, start, now),
    ensures
        j == due_count(q, lead, start, now),
{
    lemma_due_count(q, lead, start, now);
    let c = due_count(q, lead, start, now);
    if j < c {
        assert(event_due(q[j], lead, start, now));
    } else if c < j {
        assert(event_due(q[c], lead, start, now));
    }
}

/// What one scheduler iteration decided.
#[derive(Debug, PartialEq, Eq, Structural)]
pub enum TickStatus {
    /// The run flag was off: the worker exits, leaving the queues and
    /// the times as they are (covers both pause and stop).
    Stopped,
    /// Due events were dispatched and events remain queued.
    Running,
    /// Both queues drained: the session finished and the record reset.
    Finished,
}

/// Everything one scheduler iteration does: the new playback record,
/// the remaining queues, the fired events (due notes first, then due
/// others, each in file order) and the status.
pub ghost struct TickOutcome {
    pub state: PlaybackState,
    pub notes: Seq<MuseEvent>,
    pub others: Seq<MuseEvent>,
    pub fired: Seq<MuseEvent>,
    pub status: TickStatus,
}

/// One iteration of the dispatch cycle at clock reading `now`: when the
/// run flag is off nothing happens; otherwise the due prefix of the
/// note queue (with lead `lead`) fires, then the due prefix of the
/// other queue (no lead), and a session whose queues both emptied
/// finishes — run flag off and start time reset to 0 so the next
/// `play` is a fresh session.
pub open spec fn spec_tick(
    s: PlaybackState,
    notes: Seq<MuseEvent>,
    others: Seq<MuseEvent>,
    now: int,
    lead: int,
) -> TickOutcome {
    if !s.playing {
        TickOutcome { state: s, notes, others, fired: Seq::empty(), status: TickStatus::Stopped }
    } else {
        let kn = due_count(notes, lead, s.absolute_start_time, now);
        let ko = due_count(others, 0, s.absolute_start_time, now);
        let fired = notes.take(kn) + others.take(ko);
        if notes.len() - kn == 0 && others.len() - ko == 0 {
            TickOutcome {
                state: PlaybackState { playing: false, absolute_start_time: 0, ..s },
                notes: notes.skip(kn),
                others: others.skip(ko),
                fired,
                status: TickStatus::Finished,
            }
        } else {
            TickOutcome {
                state: s,
                notes: notes.skip(kn),
                others: others.skip(ko),
                fired,
                status: TickStatus::Running,
            }
        }
    }
}

/// A parsed chart with its playback record: the two event queues in
/// file order, the run flag and the two instants. The hosting
/// application shares one reader between its controller calls and at
/// most one live worker.
#[derive(Debug)]
pub struct MuseReader {
    note_events: VecDeque<MuseEvent>,
    other_events: VecDeque<MuseEvent>,
    playing: bool,
    absolute_start_time: u128,
    absolute_pause_time: u128,
}

impl MuseReader {
    /// The playback record of this reader.
    pub closed spec fn state(&self) -> PlaybackState {
        PlaybackState {
            playing: self.playing,
            absolute_start_time: self.absolute_start_time as int,
            absolute_pause_time: self.absolute_pause_time as int,
        }
    }

    /// The queued note events, in file order.
    pub closed spec fn notes(&self) -> Seq<MuseEvent> {
        self.note_events@
    }

    /// The queued other events, in file order.
    pub closed spec fn others(&self) -> Seq<MuseEvent> {
        self.other_events@
    }

    /// A reader is well formed when its playback record is.
    pub open spec fn wf(&self) -> bool {
        state_wf(self.state())
    }

    /// Builds a reader from chart text (the hosting application reads
    /// the file and passes its contents): the chart is parsed and
    /// partitioned as `parse_chart` states, and the reader starts idle,
    /// never started. All-or-nothing: a chart with an ill-formed line
    /// yields the error holding that line, and no reader.
    pub fn new(text: &str) -> (r: Result<MuseReader, NoteDeserializeError>)
        ensures
            match r {
                Ok(reader) => {
                    &&& chart_ok(chart_lines(text@))
                    &&& reader.notes().map_values(|e: MuseEvent| e@) == note_events_of(
                        events_of(chart_lines(text@)),
                    )
                    &&& reader.others().map_values(|e: MuseEvent| e@) == other_events_of(
                        events_of(chart_lines(text@)),
                    )
                    &&& reader.state() == (PlaybackState {
                        playing: false,
                        absolute_start_time: 0,
                        absolute_pause_time: 0,
                    })
                    &&& reader.wf()
                },
                Err(e) => {
                    &&& !chart_ok(chart_lines(text@))
                    &&& e.0@ == chart_lines(text@)[first_bad_line(chart_lines(text@))]
                },
            },
    {
        let (notes, others) = match parse_chart(text) {
            Ok(qs) => qs,
            Err(e) => {
                return Err(e);
            },
        };
        Ok(
            MuseReader {
                note_events: notes,
                other_events: others,
                playing: false,
                absolute_start_time: 0,
                absolute_pause_time: 0,
            },
        )
    }

    /// The start transition of `play`, at the caller's clock reading in
    /// epoch ms: succeeds only when the run flag flips from off to on —
    /// a second call with no intervening pause observes the flag set and
    /// is a no-op — and absorbs a pending paused interval into the start
    /// time so paused wall-clock time is invisible to elapsed time.
    /// Returns the instant to hand to `onStart`, `None` when no session
    /// was started. A recorded pause never lies in the caller's future.
    pub fn play(&mut self, now_ms: u128) -> (started: Option<u128>)
        requires
            old(self).wf(),
            old(self).state().absolute_pause_time != 0 ==> now_ms
                >= old(self).state().absolute_pause_time,
        ensures
            final(self).wf(),
            final(self).notes() == old(self).notes(),
            final(self).others() == old(self).others(),
            final(self).state() == spec_play(old(self).state(), now_ms as int).0,
            started is Some <==> !old(self).state().playing,
            started is Some ==> started->0 as int == spec_play(
                old(self).state(),
                now_ms as int,
            ).1->0,
    {
        if self.playing {
            return None;
        }
        if self.absolute_pause_time != 0 {
            self.absolute_start_time = self.absolute_start_time + (now_ms
                - self.absolute_pause_time);
            self.absolute_pause_time = 0;
        } else if self.absolute_start_time == 0 {
            self.absolute_start_time = now_ms;
        }
        self.playing = true;
        Some(self.absolute_start_time)
    }

    /// The pause transition, at the caller's clock reading in epoch ms:
    /// succeeds only when the run flag flips from on to off — idle pause
    /// is a no-op that leaves the pause instant at 0 — and records the
    /// pause instant for the next `play` to absorb. The queues keep
    /// their unconsumed events. A running session never starts in the
    /// caller's future.
    pub fn pause(&mut self, now_ms: u128)
        requires
            old(self).wf(),
            old(self).state().playing ==> now_ms >= old(self).state().absolute_start_time,
        ensures
            final(self).wf(),
            final(self).notes() == old(self).notes(),
            final(self).others() == old(self).others(),
            final(self).state() == spec_pause(old(self).state(), now_ms as int),
    {
        if !self.playing {
            return ;
        }
        self.playing = false;
        self.absolute_pause_time = now_ms;
    }

    /// Whether a dispatch loop is currently permitted to proceed.
    pub fn is_playing(&self) -> (r: bool)
        ensures
            r == self.state().playing,
    {
        self.playing
    }

    /// The wall-clock instant treated as chart time zero; 0 when the
    /// reader never started or fully finished a session.
    pub fn absolute_start_time(&self) -> (r: u128)
        ensures
            r as int == self.state().absolute_start_time,
    {
        self.absolute_start_time
    }

    /// The instant pause was requested; 0 when not currently paused.
    pub fn absolute_pause_time(&self) -> (r: u128)
        ensures
            r as int == self.state().absolute_pause_time,
    {
        self.absolute_pause_time
    }

    /// How many note events remain queued.
    pub fn note_count(&self) -> (r: usize)
        ensures
            r == self.notes().len(),
    {
        self.note_events.len()
    }

    /// How many other events remain queued.
    pub fn other_count(&self) -> (r: usize)
        ensures
            r == self.others().len(),
    {
        self.other_events.len()
    }

    /// Forced termination (`stop`, or release of the reader): drops the
    /// run flag so a live worker exits on its next check, and resets
    /// both instants as natural completion does, so the next `play` is
    /// a fresh session. Unconsumed events stay queued.
    pub fn stop(&mut self)
        ensures
            final(self).wf(),
            final(self).notes() == old(self).notes(),
            final(self).others() == old(self).others(),
            final(self).state() == (PlaybackState {
                playing: false,
                absolute_start_time: 0,
                absolute_pause_time: 0,
            }),
    {
        self.playing = false;
        self.absolute_start_time = 0;
        self.absolute_pause_time = 0;
    }

    /// One iteration of the dispatch cycle, at the caller's clock
    /// reading in epoch ms: exactly `spec_tick`. The returned events are
    /// in dispatch order — due notes first (led by
    /// `hitring_duration_ms`, clamped at zero), then due others — for
    /// the worker to hand to `onEvent` one by one.
    pub fn tick(&mut self, now_ms: u128, hitring_duration_ms: usize) -> (r: (
        Vec<MuseEvent>,
        TickStatus,
    ))
        requires
            old(self).wf(),
        ensures
            final(self).wf(),
            ({
                let o = spec_tick(
                    old(self).state(),
                    old(self).notes(),
                    old(self).others(),
                    now_ms as int,
                    hitring_duration_ms as int,
                );
                &&& final(self).state() == o.state
                &&& final(self).notes() == o.notes
                &&& final(self).others() == o.others
                &&& r.0@ == o.fired
                &&& r.1 == o.status
            }),
    {
        let mut fired: Vec<MuseEvent> = Vec::new();
        if !self.playing {
            return (fired, TickStatus::Stopped);
        }
        let start = self.absolute_start_time;
        let ghost notes0 = self.note_events@;
        let ghost others0 = self.other_events@;
        let ghost lead = hitring_duration_ms as int;
        loop
            invariant
                self.playing == old(self).playing,
                self.absolute_start_time == old(self).absolute_start_time,
                self.absolute_pause_time == old(self).absolute_pause_time,
                self.other_events@ == others0,
                lead == hitring_duration_ms as int,
                start == old(self).absolute_start_time,
                fired@.len() <= notes0.len(),
                fired@ == notes0.take(fired@.len() as int),
                self.note_events@ == notes0.skip(fired@.len() as int),
                forall|m: int| 0 <= m < fired@.len() ==> event_due(
                    notes0[m],
                    lead,
                    start as int,
                    now_ms as int,
                ),
            ensures
                self.note_events@.len() == 0 || !event_due(
                    notes0[fired@.len() as int],
                    lead,
                    start as int,
                    now_ms as int,
                ),
            decreases self.note_events@.len(),
        {
            if self.note_events.len() == 0 {
                break;
            }
            proof {
                assert(self.note_events@[0] == notes0[fired@.len() as int]);
            }
            let t: usize = self.note_events[0].0;
            let due: usize = if t >= hitring_duration_ms {
                t - hitring_duration_ms
            } else {
                0
            };
            if !(now_ms >= start && now_ms - start >= due as u128) {
                break;
            }
            proof {
                assert(event_due(notes0[fired@.len() as int], lead, start as int, now_ms as int));
            }
            let ev = self.note_events.pop_front().unwrap();
            fired.push(ev);
            proof {
                assert(fired@ =~= notes0.take(fired@.len() as int));
                assert(self.note_events@ =~= notes0.skip(fired@.len() as int));
            }
        }
        let ghost kn = fired@.len() as int;
        proof {
            if self.note_events@.len() > 0 {
                assert(self.note_events@[0] == notes0[kn]);
            }
            lemma_due_count_unique(notes0, lead, start as int, now_ms as int, kn);
        }
        loop
            invariant
                self.playing == old(self).playing,
                self.absolute_start_time == old(self).absolute_start_time,
                self.absolute_pause_time == old(self).absolute_pause_time,
                self.note_events@ == notes0.skip(kn),
                start == old(self).absolute_start_time,
                fired@.len() >= kn,
                fired@.len() - kn <= others0.len(),
                fired@ == notes0.take(kn) + others0.take(fired@.len() - kn),
                self.other_events@ == others0.skip(fired@.len() - kn),
                forall|m: int| 0 <= m < fired@.len() - kn ==> event_due(
                    others0[m],
                    0,
                    start as int,
                    now_ms as int,
                ),
            ensures
                self.other_events@.len() == 0 || !event_due(
                    others0[fired@.len() - kn],
                    0,
                    start as int,
                    now_ms as int,
                ),
            decreases self.other_events@.len(),
        {
            let ghost ko0 = fired@.len() - kn;
            if self.other_events.len() == 0 {
                break;
            }
            proof {
                assert(self.other_events@[0] == others0[ko0]);
            }
            let t: usize = self.other_events[0].0;
            if !(now_ms >= start && now_ms - start >= t as u128) {
                break;
            }
            proof {
                assert(event_due(others0[ko0], 0, start as int, now_ms as int));
            }
            let ev = self.other_events.pop_front().unwrap();
            fired.push(ev);
            proof {
                assert(fired@ =~= notes0.take(kn) + others0.take(ko0 + 1));
                assert(self.other_events@ =~= others0.skip(ko0 + 1));
            }
        }
        let ghost ko = fired@.len() - kn;
        proof {
            if self.other_events@.len() > 0 {
                assert(self.other_events@[0] == others0[ko]);
            }
            lemma_due_count_unique(others0, 0, start as int, now_ms as int, ko);
        }
        if self.note_events.len() == 0 && self.other_events.len() == 0 {
            self.playing = false;
            self.absolute_start_time = 0;
            (fired, TickStatus::Finished)
        } else {
            (fired, TickStatus::Running)
        }
    }
}

/// Idempotent start: after one `play`, a second `play` with no
/// intervening `pause` is a no-op — the record is unchanged and no
/// second `onStart` instant is produced — and the first call alone
/// produces one exactly when the reader was not already running.
pub proof fn lemma_play_idempotent(s: PlaybackState, now1: int, now2: int)
    ensures
        spec_play(spec_play(s, now1).0, now2).0 == spec_play(s, now1).0,
        spec_play(spec_play(s, now1).0, now2).1 is None,
        spec_play(s, now1).1 is Some <==> !s.playing,
{
}

/// Dispatch depends only on elapsed chart time: two clock readings with
/// the same distance to their session starts fire the same prefix of a
/// queue.
pub proof fn lemma_due_count_shift(
    q: Seq<MuseEvent>,
    lead: int,
    start1: int,
    now1: int,
    start2: int,
    now2: int,
)
    requires
        now1 - start1 == now2 - start2,
    ensures
        due_count(q, lead, start1, now1) == due_count(q, lead, start2, now2),
    decreases q.len(),
{
    if q.len() > 0 && event_due(q[0], lead, start1, now1) {
        lemma_due_count_shift(q.drop_first(), lead, start1, now1, start2, now2);
    }
}

/// Pause preserves progress: pausing a running session at `t_pause` and
/// resuming at `t_resume` shifts the start time forward by exactly the
/// paused interval, so elapsed chart time at the resume instant equals
/// elapsed chart time at the pause instant, and a tick any `d` ms after
/// the resume fires and leaves exactly what a tick `d` ms after the
/// pause instant would have — the paused interval is invisible.
pub proof fn lemma_pause_resume_preserves_progress(
    s: PlaybackState,
    t_pause: int,
    t_resume: int,
    notes: Seq<MuseEvent>,
    others: Seq<MuseEvent>,
    lead: int,
    d: int,
)
    requires
        state_wf(s),
        s.playing,
        t_pause != 0,
        t_resume >= t_pause,
    ensures
        ({
            let s2 = spec_play(spec_pause(s, t_pause), t_resume).0;
            &&& s2.playing
            &&& s2.absolute_start_time == s.absolute_start_time + (t_resume - t_pause)
            &&& t_resume - s2.absolute_start_time == t_pause - s.absolute_start_time
            &&& spec_tick(s2, notes, others, t_resume + d, lead).fired == spec_tick(
                s,
                notes,
                others,
                t_pause + d,
                lead,
            ).fired
            &&& spec_tick(s2, notes, others, t_resume + d, lead).notes == spec_tick(
                s,
                notes,
                others,
                t_pause + d,
                lead,
            ).notes
            &&& spec_tick(s2, notes, others, t_resume + d, lead).others == spec_tick(
                s,
                notes,
                others,
                t_pause + d,
                lead,
            ).others
            &&& spec_tick(s2, notes, others, t_resume + d, lead).status == spec_tick(
                s,
                notes,
                others,
                t_pause + d,
                lead,
            ).status
        }),
{
    let s2 = spec_play(spec_pause(s, t_pause), t_resume).0;
    lemma_due_count_shift(
        notes,
        lead,
        s2.absolute_start_time,
        t_resume + d,
        s.absolute_start_time,
        t_pause + d,
    );
    lemma_due_count_shift(
        others,
        0,
        s2.absolute_start_time,
        t_resume + d,
        s.absolute_start_time,
        t_pause + d,
    );
}

/// Completion resets the session: a tick that finishes leaves the fresh
/// record — run flag off, both instants 0 — and a later `play` starts a
/// fresh session whose `onStart` instant is that call's own clock
/// reading, unrelated to the finished session's shifted start time.
pub proof fn lemma_completion_fresh_start(
    s: PlaybackState,
    notes: Seq<MuseEvent>,
    others: Seq<MuseEvent>,
    now: int,
    lead: int,
    later: int,
)
    requires
        state_wf(s),
        spec_tick(s, notes, others, now, lead).status == TickStatus::Finished,
    ensures
        ({
            let f = spec_tick(s, notes, others, now, lead).state;
            &&& !f.playing
            &&& f.absolute_start_time == 0
            &&& f.absolute_pause_time == 0
            &&& spec_play(f, later) == (
                PlaybackState { playing: true, absolute_start_time: later, absolute_pause_time: 0 },
                Some(later),
            )
        }),
{
}

/// Idle pause is a no-op: pausing when no session is running leaves the
/// whole record unchanged — in particular a pause instant of 0 stays 0,
/// so a later fresh `play` is unaffected.
pub proof fn lemma_idle_pause_noop(s: PlaybackState, now: int)
    requires
        !s.playing,
    ensures
        spec_pause(s, now) == s,
{
}

} // verus!
