//! CPPM frame builder and timer-driven writer state machine.
//!
//! A CPPM frame multiplexes eight channels onto one line: the line idles
//! high, each channel is a 300 us low separator followed by a high pulse of
//! 690..=1710 us, and a final padding pulse stretches every frame to exactly
//! 22 000 us. All timings are expressed in microseconds.
use vstd::prelude::*;

verus! {

pub const FRAME_TIME: u32 = 22_000;
pub const MIN_TIME: u32 = 690;
pub const MAX_TIME: u32 = 1710;
pub const SEPARATION: u32 = 300;
pub const CHANNEL_COUNT: usize = 8;
/// Channel values are given in thousandths of full scale: 0 is the shortest
/// pulse (`MIN_TIME`), `CHANNEL_SCALE` the longest (`MAX_TIME`).
pub const CHANNEL_SCALE: u16 = 1000;

/// Width of the high pulse for a channel value `c` in `0..=CHANNEL_SCALE`.
pub open spec fn spec_pulse_width(c: int) -> int {
    MIN_TIME + (MAX_TIME - MIN_TIME) * c / (CHANNEL_SCALE as int)
}

/// Time taken by the pulses of `s` together with one separator before each.
pub open spec fn timings_total(s: Seq<u32>) -> int
    decreases s.len(),
{
    if s.len() == 0 {
        0
    } else {
        SEPARATION + s[0] + timings_total(s.drop_first())
    }
}

/// A precomputed schedule of timer durations for one CPPM frame.
#[derive(Clone, Copy, Debug, PartialEq, Eq)]
pub struct PpmFrame {
    /// High-pulse duration of each channel.
    pub signal_timings: [u32; CHANNEL_COUNT],
    /// Terminal high pulse that stretches the frame to `FRAME_TIME`.
    pub frame_padding: u32,
}

impl PpmFrame {
    /// Every channel pulse is in range and the separators, channel pulses and
    /// padding together fill the fixed frame period.
    pub open spec fn wf(self) -> bool {
        &&& forall|i: int|
            0 <= i < CHANNEL_COUNT ==> MIN_TIME <= #[trigger] self.signal_timings@[i] <= MAX_TIME
        &&& timings_total(self.signal_timings@) + self.frame_padding == FRAME_TIME
    }

    /// Build the schedule for eight channel values, each in thousandths of
    /// full scale. Clamping values outside that range is the caller's
    /// responsibility.
    pub fn from_channels(channels: [u16; CHANNEL_COUNT]) -> (frame: PpmFrame)
        requires
            forall|i: int| 0 <= i < CHANNEL_COUNT ==> channels@[i] <= CHANNEL_SCALE,
        ensures
            forall|i: int|
                0 <= i < CHANNEL_COUNT ==> #[trigger] frame.signal_timings@[i]
                    == spec_pulse_width(channels@[i] as int),
            frame.wf(),
    {
        let mut signal_timings: [u32; CHANNEL_COUNT] = [0; CHANNEL_COUNT];
        let mut total_time: u32 = 0;
        let mut i: usize = 0;
        while i < CHANNEL_COUNT
            invariant
                i <= CHANNEL_COUNT,
                forall|j: int| 0 <= j < CHANNEL_COUNT ==> channels@[j] <= CHANNEL_SCALE,
                forall|j: int|
                    0 <= j < i ==> #[trigger] signal_timings@[j]
                        == spec_pulse_width(channels@[j] as int),
                forall|j: int|
                    0 <= j < i ==> MIN_TIME <= #[trigger] signal_timings@[j] <= MAX_TIME,
                total_time == timings_total(signal_timings@.take(i as int)),
                total_time <= 2010 * i,
            decreases CHANNEL_COUNT - i,
        {
            let c = channels[i];
            proof {
                assert(0 <= 1020 * (c as int) <= 66845700) by (nonlinear_arith)
                    requires
                        c <= 65535,
                ;
            }
            let time: u32 = MIN_TIME + (MAX_TIME - MIN_TIME) * (c as u32) / (CHANNEL_SCALE
                as u32);
            proof {
                assert(0 <= 1020 * (c as int) / 1000 && 1020 * (c as int) / 1000 <= 1020)
                    by (nonlinear_arith)
                    requires
                        c <= 1000,
                ;
                assert(MIN_TIME <= time <= MAX_TIME);
            }
            let ghost prev = signal_timings@;
            signal_timings[i] = time;
            proof {
                assert(signal_timings@.take(i as int) =~= prev.take(i as int));
                assert(signal_timings@.take(i + 1) =~= prev.take(i as int).push(time));
                lemma_timings_total_push(prev.take(i as int), time);
            }
            total_time = total_time + (SEPARATION + time);
            i = i + 1;
        }
        proof {
            assert(signal_timings@.take(CHANNEL_COUNT as int) =~= signal_timings@);
        }
        PpmFrame { signal_timings, frame_padding: FRAME_TIME - total_time }
    }
}

/// One GPIO/timer command issued by the writer on a timer expiry: drive the
/// line to the given level and restart the one-shot timer with `duration`
/// microseconds. The caller owning the pin and timer hardware performs it.
#[derive(Clone, Copy, Debug, PartialEq, Eq)]
pub enum CppmAction {
    SetLow { duration: u32 },
    SetHigh { duration: u32 },
}

/// Interrupt-time state machine that emits one CPPM frame after another.
///
/// The line idles high. Each timer expiry toggles the line: a high-to-low
/// toggle starts a separator, a low-to-high toggle starts the next channel
/// pulse, or, once all channels are out, the frame padding pulse, at which
/// point the next frame is latched in whole.
#[derive(Clone, Copy, Debug)]
pub struct CppmWriter {
    /// Index of the next channel pulse to send.
    pub index: usize,
    /// Whether the line is currently driven low.
    pub is_low: bool,
    /// The frame being transmitted.
    pub current_frame: PpmFrame,
}

/// What one timer expiry does: the new writer state and the command to issue.
pub open spec fn spec_on_timer(w: CppmWriter, next: PpmFrame) -> (CppmWriter, CppmAction) {
    if w.is_low {
        if w.index == CHANNEL_COUNT {
            (
                CppmWriter { index: 0, is_low: false, current_frame: next },
                CppmAction::SetHigh { duration: w.current_frame.frame_padding },
            )
        } else {
            (
                CppmWriter {
                    index: (w.index + 1) as usize,
                    is_low: false,
                    current_frame: w.current_frame,
                },
                CppmAction::SetHigh { duration: w.current_frame.signal_timings@[w.index as int] },
            )
        }
    } else {
        (
            CppmWriter { index: w.index, is_low: true, current_frame: w.current_frame },
            CppmAction::SetLow { duration: SEPARATION },
        )
    }
}

impl CppmWriter {
    /// The pulse index never runs past the padding slot.
    pub open spec fn wf(self) -> bool {
        self.index <= CHANNEL_COUNT
    }

    /// A freshly built writer is about to issue the first separator of
    /// `initial_frame`; the caller must have driven the line high.
    pub fn new(initial_frame: PpmFrame) -> (w: CppmWriter)
        ensures
            w == (CppmWriter { index: 0, is_low: false, current_frame: initial_frame }),
    {
        CppmWriter { index: 0, is_low: false, current_frame: initial_frame }
    }

    /// Timer event handler: advances the state machine by one toggle and
    /// returns the command for the hardware. Must be called exactly once per
    /// timer expiry.
    pub fn on_timer(&mut self, next_frame: &PpmFrame) -> (action: CppmAction)
        requires
            old(self).wf(),
        ensures
            final(self).wf(),
            (*final(self), action) == spec_on_timer(*old(self), *next_frame),
    {
        if self.is_low {
            self.is_low = false;
            if self.index == CHANNEL_COUNT {
                let duration = self.current_frame.frame_padding;
                self.current_frame = *next_frame;
                self.index = 0;
                CppmAction::SetHigh { duration }
            } else {
                let duration = self.current_frame.signal_timings[self.index];
                self.index = self.index + 1;
                CppmAction::SetHigh { duration }
            }
        } else {
            self.is_low = true;
            CppmAction::SetLow { duration: SEPARATION }
        }
    }
}

/// The writer state and the commands issued by `n` consecutive timer
/// expiries, all with the same pending next frame.
pub open spec fn spec_run_timer(w: CppmWriter, next: PpmFrame, n: nat) -> (CppmWriter, Seq<
    CppmAction,
>)
    decreases n,
{
    if n == 0 {
        (w, Seq::empty())
    } else {
        let (w1, action) = spec_on_timer(w, next);
        let (w2, rest) = spec_run_timer(w1, next, (n - 1) as nat);
        (w2, seq![action] + rest)
    }
}

/// The duration a command keeps the line at its level.
pub open spec fn duration_of(action: CppmAction) -> u32 {
    match action {
        CppmAction::SetLow { duration } => duration,
        CppmAction::SetHigh { duration } => duration,
    }
}

/// Total time a command sequence keeps the line driven.
pub open spec fn durations_total(s: Seq<CppmAction>) -> int
    decreases s.len(),
{
    if s.len() == 0 {
        0
    } else {
        duration_of(s[0]) + durations_total(s.drop_first())
    }
}

proof fn lemma_durations_cons(action: CppmAction, rest: Seq<CppmAction>)
    ensures
        durations_total(seq![action] + rest) == duration_of(action) + durations_total(rest),
{
    assert((seq![action] + rest).drop_first() =~= rest);
    assert((seq![action] + rest)[0] == action);
}

/// Tail of a frame: with the line high and `k` channel pulses already sent,
/// the remaining `2 * (9 - k)` expiries send a separator and a pulse for each
/// remaining channel, then a separator and the padding pulse, and latch the
/// next frame.
proof fn lemma_cycle_from(frame: PpmFrame, next: PpmFrame, k: int)
    requires
        0 <= k <= CHANNEL_COUNT,
    ensures
        ({
            let w = CppmWriter { index: k as usize, is_low: false, current_frame: frame };
            let (w_end, actions) = spec_run_timer(w, next, (2 * (9 - k)) as nat);
            &&& actions.len() == 2 * (9 - k)
            &&& forall|j: int|
                0 <= j < actions.len() && j % 2 == 0 ==> actions[j] == (CppmAction::SetLow {
                    duration: SEPARATION,
                })
            &&& forall|j: int|
                0 <= j < actions.len() - 1 && j % 2 == 1 ==> actions[j] == (CppmAction::SetHigh {
                    duration: frame.signal_timings@[k + (j - 1) / 2],
                })
            &&& actions[actions.len() - 1] == (CppmAction::SetHigh {
                duration: frame.frame_padding,
            })
            &&& w_end == (CppmWriter { index: 0, is_low: false, current_frame: next })
            &&& durations_total(actions) == timings_total(frame.signal_timings@.skip(k))
                + SEPARATION + frame.frame_padding
        }),
    decreases CHANNEL_COUNT - k,
{
    reveal_with_fuel(spec_run_timer, 3);
    let w = CppmWriter { index: k as usize, is_low: false, current_frame: frame };
    let n = (2 * (9 - k)) as nat;
    let (w1, a1) = spec_on_timer(w, next);
    let (w2, a2) = spec_on_timer(w1, next);
    assert(a1 == (CppmAction::SetLow { duration: SEPARATION }));
    let (w_rec, rest) = spec_run_timer(w2, next, (n - 2) as nat);
    let (w_end, actions) = spec_run_timer(w, next, n);
    assert(actions =~= seq![a1] + (seq![a2] + rest));
    lemma_durations_cons(a2, rest);
    lemma_durations_cons(a1, seq![a2] + rest);
    if k == CHANNEL_COUNT {
        assert(a2 == (CppmAction::SetHigh { duration: frame.frame_padding }));
        assert(rest =~= Seq::<CppmAction>::empty());
        assert(frame.signal_timings@.skip(k) =~= Seq::<u32>::empty());
    } else {
        assert(a2 == (CppmAction::SetHigh { duration: frame.signal_timings@[k] }));
        lemma_cycle_from(frame, next, k + 1);
        assert(frame.signal_timings@.skip(k).drop_first() =~= frame.signal_timings@.skip(k + 1));
        assert(frame.signal_timings@.skip(k)[0] == frame.signal_timings@[k]);
        assert forall|j: int| 0 <= j < actions.len() - 1 && j % 2 == 1 implies actions[j] == (
        CppmAction::SetHigh { duration: frame.signal_timings@[k + (j - 1) / 2] }) by {
            if j == 1 {
            } else {
                assert(actions[j] == rest[j - 2]);
                assert((j - 2 - 1) / 2 == (j - 1) / 2 - 1);
            }
        }
    }
}

/// One full frame, as seen by the hardware: from a fresh writer holding a
/// well-formed frame, eighteen consecutive timer expiries issue a 300 us
/// separator before each of the eight channel pulses and before the final
/// padding pulse, then hold the latched next frame at the first channel; the
/// separators of the eight channels, the channel pulses and the padding
/// together last exactly `FRAME_TIME` (the ninth separator already belongs to
/// the next period).
pub proof fn lemma_frame_cycle(frame: PpmFrame, next: PpmFrame)
    requires
        frame.wf(),
    ensures
        ({
            let w0 = CppmWriter { index: 0, is_low: false, current_frame: frame };
            let (w_end, actions) = spec_run_timer(w0, next, 18);
            &&& actions.len() == 18
            &&& forall|j: int|
                0 <= j < 18 && j % 2 == 0 ==> actions[j] == (CppmAction::SetLow {
                    duration: SEPARATION,
                })
            &&& forall|j: int|
                0 <= j < 17 && j % 2 == 1 ==> actions[j] == (CppmAction::SetHigh {
                    duration: frame.signal_timings@[(j - 1) / 2],
                })
            &&& actions[17] == (CppmAction::SetHigh { duration: frame.frame_padding })
            &&& w_end == (CppmWriter { index: 0, is_low: false, current_frame: next })
            &&& durations_total(actions) == FRAME_TIME + SEPARATION
        }),
{
    lemma_cycle_from(frame, next, 0);
    assert(frame.signal_timings@.skip(0) =~= frame.signal_timings@);
}

/// Appending one more channel pulse adds one separator and that pulse.
pub proof fn lemma_timings_total_push(s: Seq<u32>, x: u32)
    ensures
        timings_total(s.push(x)) == timings_total(s) + SEPARATION + x,
    decreases s.len(),
{
    reveal_with_fuel(timings_total, 2);
    if s.len() == 0 {
        assert(s.push(x).drop_first() =~= Seq::<u32>::empty());
        assert(s =~= Seq::<u32>::empty());
    } else {
        assert(s.push(x).drop_first() =~= s.drop_first().push(x));
        lemma_timings_total_push(s.drop_first(), x);
    }
}

} // verus!
