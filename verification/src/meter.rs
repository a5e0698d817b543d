//! The meter of a download: it counts what the workers bring, reports the speed once a
//! second and decides when the download ends.
//!
//! Speeds are computed by the caller, from the counts that the meter holds.

use std::collections::VecDeque;
use vstd::prelude::*;

use crate::config::Config;
use crate::messages;
use crate::rate::Rate;
use crate::span::Span;
use crate::span::MAX_NANOS;
use crate::text::views;

verus! {

/// How often the speed is reported, in seconds.
pub const TICK_SECS: u64 = 1;

/// For how long the speed must hold before saturation ends, in seconds.
pub const RECOVERY_SECS: u64 = 15;

/// After how long without data a warning is due, in seconds.
pub const SILENCE_SECS: u64 = 3;

/// What a download came to.
#[derive(Clone, Copy, Debug, PartialEq, Eq, Structural)]
pub struct CycleResult {
    pub avg_mbps: Rate,
}

impl CycleResult {
    /// The result with nothing measured.
    pub fn none() -> (r: CycleResult)
        ensures
            r.avg_mbps == (Rate { bits: 0 }),
            r.avg_mbps.value() == 0,
    {
        CycleResult { avg_mbps: Rate::zero() }
    }
}

/// Whether a download ends because it is asked to `stop`: then it comes to nothing.
pub fn on_stop(stop: bool) -> (r: Option<CycleResult>)
    ensures
        r == if stop {
            Some(CycleResult { avg_mbps: Rate { bits: 0 } })
        } else {
            None
        },
{
    if stop {
        Some(CycleResult::none())
    } else {
        None
    }
}

/// One report of the speed.
pub struct Tick {
    /// The time since the last report.
    pub elapsed: Span,
    /// The time since the download began.
    pub since_start: Span,
    /// The speed since the last report.
    pub last_mbps: Rate,
    /// The speed since the last report, as it is shown.
    pub shown: String,
}

/// What follows a report.
#[derive(Clone, Copy, Debug, PartialEq, Eq, Structural)]
pub enum Verdict {
    /// The download goes on.
    Continue,
    /// The check is over: its result is the speed of this many bytes since it began.
    CheckDone(u64),
    /// The speed has recovered.
    Recovered(CycleResult),
    /// The download has been asked to stop.
    Stopped(CycleResult),
}

/// The meter of one download.
pub struct Meter {
    /// How long the download lasts; none where it lasts until the speed recovers.
    pub goal: Option<Span>,
    /// The speed above which a report counts as good.
    pub threshold: Rate,
    /// How many of the last speeds are kept, for an average over them.
    pub window: usize,
    /// Bytes since the last report.
    pub window_bytes: u64,
    /// Bytes since the download began.
    pub total_bytes: u64,
    /// For how long the speed has been good.
    pub good_elapsed: Span,
    /// The last speeds, the oldest first.
    pub samples: VecDeque<Rate>,
    /// For how long nothing has come in.
    pub zero_streak: Span,
    /// Whether that has been reported.
    pub warned_zero: bool,
}

/// The state of a meter.
pub struct MeterView {
    pub goal: Option<Span>,
    pub threshold: Rate,
    pub window: nat,
    pub window_bytes: nat,
    pub total_bytes: nat,
    /// In nanoseconds.
    pub good_elapsed: nat,
    pub samples: Seq<Rate>,
    /// In nanoseconds.
    pub zero_streak: nat,
    pub warned_zero: bool,
}

/// A report, as a meter takes it.
pub struct TickView {
    /// In nanoseconds.
    pub elapsed: nat,
    /// In nanoseconds.
    pub since_start: nat,
    pub last_mbps: Rate,
    pub shown: Seq<char>,
}

impl View for Tick {
    type V = TickView;

    open spec fn view(&self) -> TickView {
        TickView {
            elapsed: self.elapsed.nanos as nat,
            since_start: self.since_start.nanos as nat,
            last_mbps: self.last_mbps,
            shown: self.shown@,
        }
    }
}

impl View for Meter {
    type V = MeterView;

    open spec fn view(&self) -> MeterView {
        MeterView {
            goal: self.goal,
            threshold: self.threshold,
            window: self.window as nat,
            window_bytes: self.window_bytes as nat,
            total_bytes: self.total_bytes as nat,
            good_elapsed: self.good_elapsed.nanos as nat,
            samples: self.samples@,
            zero_streak: self.zero_streak.nanos as nat,
            warned_zero: self.warned_zero,
        }
    }
}

/// The last `window` of `samples` with `last` behind them.
pub open spec fn rolled(samples: Seq<Rate>, last: Rate, window: nat) -> Seq<Rate> {
    let all = samples.push(last);
    if all.len() > window {
        all.drop_first()
    } else {
        all
    }
}

/// The speeds that an average is taken over: the samples, or the last speed where there
/// are none.
pub open spec fn averaged(samples: Seq<Rate>, last: Rate) -> Seq<Rate> {
    if samples.len() == 0 {
        seq![last]
    } else {
        samples
    }
}

impl MeterView {
    /// What holds of every meter: there are never more samples than the window is wide, and
    /// what came in since the last report is part of what came in.
    pub open spec fn wf(self) -> bool {
        &&& self.samples.len() <= self.window
        &&& self.window_bytes <= self.total_bytes
    }

    /// Whether the clock's own type can hold the times that a report at `tick` adds up.
    pub open spec fn fits(self, tick: TickView) -> bool {
        &&& self.silence(tick) <= MAX_NANOS
        &&& self.goal is None ==> self.goodness(tick) <= MAX_NANOS
    }

    /// A meter before anything has come in.
    pub open spec fn fresh(config: Config, goal: Option<Span>) -> MeterView {
        MeterView {
            goal,
            threshold: config.threshold_mbps,
            window: config.rolling_window_secs as nat,
            window_bytes: 0,
            total_bytes: 0,
            good_elapsed: 0,
            samples: seq![],
            zero_streak: 0,
            warned_zero: false,
        }
    }

    /// The meter after `len` bytes more.
    pub open spec fn received(self, len: nat) -> MeterView {
        MeterView {
            window_bytes: self.window_bytes + len,
            total_bytes: self.total_bytes + len,
            ..self
        }
    }

    /// For how long nothing has come in, with a report at `tick`.
    pub open spec fn silence(self, tick: TickView) -> nat {
        if self.window_bytes == 0 {
            self.zero_streak + tick.elapsed
        } else {
            0
        }
    }

    /// Whether a warning is due at `tick` that nothing comes in.
    pub open spec fn warns(self, tick: TickView) -> bool {
        &&& tick.elapsed > 0
        &&& self.window_bytes == 0
        &&& !self.warned_zero
        &&& self.silence(tick) >= SILENCE_SECS * 1_000_000_000
    }

    /// For how long the speed has been good, with a report at `tick`: good is a speed above
    /// the threshold, and any other starts the count anew.
    pub open spec fn goodness(self, tick: TickView) -> nat {
        if tick.last_mbps.exceeds(self.threshold) {
            self.good_elapsed + tick.elapsed
        } else {
            0
        }
    }

    /// What follows a report at `tick`.
    pub open spec fn verdict(self, tick: TickView) -> Verdict {
        if tick.elapsed == 0 {
            Verdict::Continue
        } else {
            match self.goal {
                Some(goal) => if tick.since_start >= goal.nanos {
                    Verdict::CheckDone(self.total_bytes as u64)
                } else {
                    Verdict::Continue
                },
                None => if self.goodness(tick) >= RECOVERY_SECS * 1_000_000_000 {
                    Verdict::Recovered(CycleResult { avg_mbps: tick.last_mbps })
                } else {
                    Verdict::Continue
                },
            }
        }
    }

    /// The lines of a report at `tick`.
    pub open spec fn lines(self, tick: TickView) -> Seq<Seq<char>> {
        let speed = if tick.elapsed > 0 {
            seq![messages::current_speed_text(tick.shown)]
        } else {
            seq![]
        };
        let warning = if self.warns(tick) {
            seq![messages::no_data_yet_text()]
        } else {
            seq![]
        };
        let recovery = if self.verdict(tick) is Recovered {
            seq![messages::recovered_text(tick.shown)]
        } else {
            seq![]
        };
        speed + warning + recovery
    }

    /// The meter after a report at `tick`. No time, no sample: then only the count starts
    /// anew.
    pub open spec fn ticked(self, tick: TickView) -> MeterView {
        if tick.elapsed == 0 {
            MeterView { window_bytes: 0, ..self }
        } else {
            MeterView {
                window_bytes: 0,
                samples: rolled(self.samples, tick.last_mbps, self.window),
                zero_streak: self.silence(tick),
                warned_zero: self.window_bytes == 0 && (self.warned_zero || self.warns(tick)),
                good_elapsed: if self.goal is None {
                    self.goodness(tick)
                } else {
                    self.good_elapsed
                },
                ..self
            }
        }
    }
}

impl Meter {
    /// What holds of every meter.
    pub open spec fn wf(&self) -> bool {
        self@.wf()
    }

    /// A meter for a download with `config`, which lasts for `goal`, or until the speed
    /// recovers where there is none.
    pub fn new(config: &Config, goal: Option<Span>) -> (r: Meter)
        ensures
            r@ == MeterView::fresh(*config, goal),
            r.wf(),
            r.goal == goal,
            r.threshold == config.threshold_mbps,
            r.window == config.rolling_window_secs,
            r.window_bytes == 0 && r.total_bytes == 0,
            r.good_elapsed.nanos == 0 && r.zero_streak.nanos == 0,
            r.samples@.len() == 0,
            !r.warned_zero,
    {
        Meter {
            goal,
            threshold: config.threshold_mbps,
            window: config.rolling_window_secs,
            window_bytes: 0,
            total_bytes: 0,
            good_elapsed: Span { nanos: 0 },
            samples: VecDeque::new(),
            zero_streak: Span { nanos: 0 },
            warned_zero: false,
        }
    }

    /// Counts `len` bytes.
    pub fn receive(&mut self, len: usize)
        requires
            old(self).wf(),
            old(self).total_bytes + len <= u64::MAX,
        ensures
            final(self)@ == old(self)@.received(len as nat),
            final(self).wf(),
            final(self).window_bytes == old(self).window_bytes + len,
            final(self).total_bytes == old(self).total_bytes + len,
            final(self).goal == old(self).goal,
            final(self).threshold == old(self).threshold,
            final(self).window == old(self).window,
            final(self).good_elapsed == old(self).good_elapsed,
            final(self).samples@ == old(self).samples@,
            final(self).zero_streak == old(self).zero_streak,
            final(self).warned_zero == old(self).warned_zero,
    {
        self.window_bytes = self.window_bytes + len as u64;
        self.total_bytes = self.total_bytes + len as u64;
    }

    /// The speeds that an average is to be taken over, if `last` is the speed since the last
    /// report.
    pub fn averaged_with(&self, last: Rate) -> (r: Vec<Rate>)
        requires
            self.wf(),
        ensures
            r@ == averaged(rolled(self@.samples, last, self@.window), last),
            r@.len() > 0 && r@.last() == last,
            r@.drop_last().is_suffix_of(self.samples@),
            r@.len() == if self.window == 0 {
                1
            } else if self.samples@.len() < self.window {
                self.samples@.len() + 1
            } else {
                self.window as nat
            },
    {
        let mut r: Vec<Rate> = Vec::new();
        let n = self.samples.len();
        let full = n == self.window;
        for i in 0..n
            invariant
                n == self.samples@.len(),
                r@ == if full && i > 0 {
                    self.samples@.subrange(1, i as int)
                } else {
                    self.samples@.subrange(0, if full { 0 } else { i as int })
                },
        {
            if !full || i > 0 {
                r.push(self.samples[i]);
            }
            assert(r@ =~= if full {
                self.samples@.subrange(1, i + 1)
            } else {
                self.samples@.subrange(0, i + 1)
            });
        }
        r.push(last);
        proof {
            let kept = rolled(self.samples@, last, self.window as nat);
            if self.window > 0 {
                assert(r@ =~= kept);
            } else {
                assert(kept =~= Seq::<Rate>::empty());
                assert(r@ =~= seq![last]);
            }
            let front = r@.drop_last();
            assert(front =~= self.samples@.subrange(
                self.samples@.len() - front.len(),
                self.samples@.len() as int,
            ));
        }
        r
    }

    /// Takes a report, and gives what follows it, with the lines to report.
    pub fn tick(&mut self, tick: &Tick) -> (r: (Verdict, Vec<String>))
        requires
            old(self).wf(),
            old(self)@.fits(tick@),
        ensures
            final(self)@ == old(self)@.ticked(tick@),
            final(self).wf(),
            r.0 == old(self)@.verdict(tick@),
            views(r.1@) == old(self)@.lines(tick@),
            !(r.0 is Stopped),
            old(self).goal is None ==> (r.0 == Verdict::Continue || r.0 == Verdict::Recovered(
                CycleResult { avg_mbps: tick.last_mbps },
            )),
            old(self).goal is None ==> (r.0 is Recovered <==> tick.elapsed.nanos > 0
                && tick.last_mbps.exceeds(old(self).threshold) && old(self).good_elapsed.nanos
                + tick.elapsed.nanos >= 15_000_000_000),
            old(self).goal matches Some(goal) ==> r.0 == if tick.elapsed.nanos > 0
                && tick.since_start.nanos >= goal.nanos {
                Verdict::CheckDone(old(self).total_bytes)
            } else {
                Verdict::Continue
            },
            final(self).goal == old(self).goal,
            final(self).threshold == old(self).threshold,
            final(self).window == old(self).window,
            final(self).total_bytes == old(self).total_bytes,
            final(self).window_bytes == 0,
            old(self).goal is Some ==> final(self).good_elapsed == old(self).good_elapsed,
            tick.elapsed.nanos == 0 ==> {
                &&& r.1@.len() == 0
                &&& final(self).samples@ == old(self).samples@
                &&& final(self).good_elapsed == old(self).good_elapsed
                &&& final(self).zero_streak == old(self).zero_streak
                &&& final(self).warned_zero == old(self).warned_zero
            },
            tick.elapsed.nanos > 0 ==> {
                let all = old(self).samples@.push(tick.last_mbps);
                let silent = old(self).window_bytes == 0;
                let silence = old(self).zero_streak.nanos + tick.elapsed.nanos;
                let warned = silent && !old(self).warned_zero && silence >= 3_000_000_000;
                &&& final(self).samples@ == all.skip(
                    if all.len() > old(self).window {
                        all.len() - old(self).window
                    } else {
                        0
                    },
                )
                &&& silent ==> final(self).zero_streak.nanos == silence
                &&& !silent ==> final(self).zero_streak.nanos == 0 && !final(self).warned_zero
                &&& silent ==> final(self).warned_zero == (old(self).warned_zero || warned)
                &&& old(self).goal is None && tick.last_mbps.exceeds(old(self).threshold)
                    ==> final(self).good_elapsed.nanos == old(self).good_elapsed.nanos
                    + tick.elapsed.nanos
                &&& old(self).goal is None && !tick.last_mbps.exceeds(old(self).threshold)
                    ==> final(self).good_elapsed.nanos == 0
                &&& r.1@.len() == 1 + (if warned {
                    1int
                } else {
                    0
                }) + (if r.0 is Recovered {
                    1int
                } else {
                    0
                })
                &&& r.1@[0]@ == "  Current: "@ + tick.shown@ + " Mbps"@
                &&& warned ==> r.1@[1]@
                    == "  ПРЕДУПРЕЖДЕНИЕ: пока нет данных; адрес может быть заблокирован или недоступен."@
                &&& r.0 is Recovered ==> r.1@.last()@ == "  Скорость восстановилась до "@ + tick.shown@
                    + " Мбит/с."@
            },
    {
        let ghost before = self@;
        let mut lines: Vec<String> = Vec::new();
        let mut verdict = Verdict::Continue;
        if tick.elapsed.nanos > 0 {
            lines.push(messages::current_speed(tick.shown.as_str()));
            let ghost speed = views(lines@);
            assert(speed =~= seq![messages::current_speed_text(tick.shown@)]);
            if self.window_bytes == 0 {
                self.zero_streak = Span { nanos: self.zero_streak.nanos + tick.elapsed.nanos };
                if !self.warned_zero && self.zero_streak.nanos >= Span::from_secs(
                    SILENCE_SECS,
                ).nanos {
                    lines.push(messages::no_data_yet());
                    self.warned_zero = true;
                }
            } else {
                self.zero_streak = Span { nanos: 0 };
                self.warned_zero = false;
            }
            let ghost warning = if before.warns(tick@) {
                seq![messages::no_data_yet_text()]
            } else {
                seq![]
            };
            assert(views(lines@) =~= speed + warning);
            self.samples.push_back(tick.last_mbps);
            if self.samples.len() > self.window {
                self.samples.pop_front();
            }
            assert(self.samples@ =~= rolled(before.samples, tick.last_mbps, before.window));
            match self.goal {
                Some(goal) => {
                    if tick.since_start.nanos >= goal.nanos {
                        verdict = Verdict::CheckDone(self.total_bytes);
                    }
                },
                None => {
                    if tick.last_mbps.more_than(self.threshold) {
                        self.good_elapsed = Span {
                            nanos: self.good_elapsed.nanos + tick.elapsed.nanos,
                        };
                    } else {
                        self.good_elapsed = Span { nanos: 0 };
                    }
                    if self.good_elapsed.nanos >= Span::from_secs(RECOVERY_SECS).nanos {
                        lines.push(messages::recovered(tick.shown.as_str()));
                        verdict = Verdict::Recovered(CycleResult { avg_mbps: tick.last_mbps });
                    }
                },
            }
        }
        assert(views(lines@) =~= before.lines(tick@));
        assert(views(lines@).len() == lines@.len());
        assert(forall|i: int| 0 <= i < lines@.len() ==> views(lines@)[i] == #[trigger] lines@[i]@);
        proof {
            let all = before.samples.push(tick.last_mbps);
            assert(all.skip(0) =~= all);
            assert(all.skip(1) =~= all.drop_first());
        }
        self.window_bytes = 0;
        (verdict, lines)
    }

    /// What follows when a report is due, with the lines to report. Where the download has been
    /// asked to `stop`, that comes first: it ends with nothing measured, whatever came in and
    /// whether or not its time is over. Else the report is taken.
    pub fn report(&mut self, stop: bool, tick: &Tick) -> (r: (Verdict, Vec<String>))
        requires
            old(self).wf(),
            !stop ==> old(self)@.fits(tick@),
        ensures
            final(self).wf(),
            stop ==> {
                &&& *final(self) == *old(self)
                &&& r.0 == Verdict::Stopped(CycleResult { avg_mbps: Rate { bits: 0 } })
                &&& r.1@.len() == 0
            },
            !stop ==> {
                &&& final(self)@ == old(self)@.ticked(tick@)
                &&& r.0 == old(self)@.verdict(tick@)
                &&& views(r.1@) == old(self)@.lines(tick@)
            },
            r.0 is Stopped <==> stop,
            !stop && old(self).goal is None ==> (r.0 is Recovered <==> tick.elapsed.nanos > 0
                && tick.last_mbps.exceeds(old(self).threshold) && old(self).good_elapsed.nanos
                + tick.elapsed.nanos >= 15_000_000_000),
            !stop && old(self).goal is None ==> (r.0 == Verdict::Continue || r.0
                == Verdict::Recovered(CycleResult { avg_mbps: tick.last_mbps })),
            !stop ==> (old(self).goal matches Some(goal) ==> r.0 == if tick.elapsed.nanos > 0
                && tick.since_start.nanos >= goal.nanos {
                Verdict::CheckDone(old(self).total_bytes)
            } else {
                Verdict::Continue
            }),
    {
        match on_stop(stop) {
            Some(result) => (Verdict::Stopped(result), Vec::new()),
            None => self.tick(tick),
        }
    }
}

/// What a meter meets during a download.
pub enum MeterEvent {
    /// This many bytes come in.
    Received(nat),
    /// A report is due.
    Ticked(TickView),
}

impl MeterView {
    /// The meter after one event more.
    pub open spec fn step(self, event: MeterEvent) -> MeterView {
        match event {
            MeterEvent::Received(len) => self.received(len),
            MeterEvent::Ticked(tick) => self.ticked(tick),
        }
    }

    /// The meter after `events`.
    pub open spec fn run(self, events: Seq<MeterEvent>) -> MeterView
        decreases events.len(),
    {
        if events.len() == 0 {
            self
        } else {
            self.run(events.drop_last()).step(events.last())
        }
    }
}

/// The bytes that come in during `events`.
pub open spec fn bytes_of(events: Seq<MeterEvent>) -> nat
    decreases events.len(),
{
    if events.len() == 0 {
        0
    } else {
        bytes_of(events.drop_last()) + match events.last() {
            MeterEvent::Received(len) => len,
            MeterEvent::Ticked(_) => 0,
        }
    }
}

/// The bytes that come in during `events` behind the last report.
pub open spec fn bytes_since_report(events: Seq<MeterEvent>) -> nat
    decreases events.len(),
{
    if events.len() == 0 {
        0
    } else {
        match events.last() {
            MeterEvent::Received(len) => bytes_since_report(events.drop_last()) + len,
            MeterEvent::Ticked(_) => 0,
        }
    }
}

/// The speeds that are reported during `events`.
pub open spec fn rates_of(events: Seq<MeterEvent>) -> Seq<Rate>
    decreases events.len(),
{
    if events.len() == 0 {
        seq![]
    } else {
        let front = rates_of(events.drop_last());
        match events.last() {
            MeterEvent::Received(_) => front,
            MeterEvent::Ticked(tick) => if tick.elapsed == 0 {
                front
            } else {
                front.push(tick.last_mbps)
            },
        }
    }
}

/// The time that the reports in `events` cover, in nanoseconds.
pub open spec fn time_of(events: Seq<MeterEvent>) -> nat
    decreases events.len(),
{
    if events.len() == 0 {
        0
    } else {
        time_of(events.drop_last()) + match events.last() {
            MeterEvent::Received(_) => 0,
            MeterEvent::Ticked(tick) => tick.elapsed,
        }
    }
}

/// Whether the speed is above the threshold at every report in `events`.
pub open spec fn all_good(events: Seq<MeterEvent>, threshold: Rate) -> bool {
    forall|i: int|
        0 <= i < events.len() ==> (#[trigger] events[i] matches MeterEvent::Ticked(tick)
            ==> tick.elapsed == 0 || tick.last_mbps.exceeds(threshold))
}

/// Whether nothing comes in during `events`.
pub open spec fn all_silent(events: Seq<MeterEvent>) -> bool {
    forall|i: int|
        0 <= i < events.len() ==> (#[trigger] events[i] matches MeterEvent::Received(len) ==> len
            == 0)
}

/// A meter knows what came in, in all and since the last report, and holds the last
/// speeds, as many as the window is wide.
pub proof fn lemma_meter_counts(config: Config, goal: Option<Span>, events: Seq<MeterEvent>)
    ensures
        MeterView::fresh(config, goal).run(events).wf(),
        MeterView::fresh(config, goal).run(events).goal == goal,
        MeterView::fresh(config, goal).run(events).threshold == config.threshold_mbps,
        MeterView::fresh(config, goal).run(events).window == config.rolling_window_secs,
        MeterView::fresh(config, goal).run(events).total_bytes == bytes_of(events),
        MeterView::fresh(config, goal).run(events).window_bytes == bytes_since_report(events),
        MeterView::fresh(config, goal).run(events).samples == rates_of(events).skip(
            if rates_of(events).len() > config.rolling_window_secs {
                rates_of(events).len() - config.rolling_window_secs
            } else {
                0
            },
        ),
    decreases events.len(),
{
    let start = MeterView::fresh(config, goal);
    let w = config.rolling_window_secs as nat;
    if events.len() == 0 {
        assert(rates_of(events).skip(0) =~= seq![]);
    } else {
        let front = events.drop_last();
        lemma_meter_counts(config, goal, front);
        let before = rates_of(front);
        let after = rates_of(events);
        if let MeterEvent::Ticked(tick) = events.last() {
            if tick.elapsed > 0 {
                let from = if before.len() > w {
                    before.len() - w
                } else {
                    0
                };
                let all = after.skip(from);
                assert(start.run(front).samples.push(tick.last_mbps) =~= all);
                if all.len() > w {
                    assert(all.drop_first() =~= after.skip(from + 1));
                }
            }
        }
    }
}

/// A download that lasts until the speed recovers ends exactly where the reports at the
/// end, each with a speed above the threshold, cover at least fifteen seconds. Its result
/// is the speed of the last of them.
pub proof fn lemma_recovery(config: Config, events: Seq<MeterEvent>, tick: TickView)
    requires
        tick.elapsed > 0,
    ensures
        MeterView::fresh(config, None).run(events).verdict(tick) is Recovered <==> exists|from: int|
            0 <= from <= events.len() && #[trigger] all_good(
                events.push(MeterEvent::Ticked(tick)).skip(from),
                config.threshold_mbps,
            ) && time_of(events.push(MeterEvent::Ticked(tick)).skip(from)) >= 15_000_000_000,
        MeterView::fresh(config, None).run(events).verdict(tick) matches Verdict::Recovered(r)
            ==> r.avg_mbps == tick.last_mbps && r.avg_mbps.exceeds(config.threshold_mbps),
{
    let all = events.push(MeterEvent::Ticked(tick));
    let th = config.threshold_mbps;
    let meter = MeterView::fresh(config, None).run(events);
    lemma_meter_counts(config, None, events);
    lemma_good_streak(config, all);
    assert(all.drop_last() =~= events);
    assert(MeterView::fresh(config, None).run(all) == meter.ticked(tick));
    let good = meter.goodness(tick);
    if good >= 15_000_000_000 {
        let from = choose|from: int|
            0 <= from <= all.len() && #[trigger] all_good(all.skip(from), th) && time_of(
                all.skip(from),
            ) == good;
        if from == all.len() {
            assert(all.skip(from) =~= Seq::<MeterEvent>::empty());
        }
        assert(all_good(all.skip(from), th));
    }
}

/// The time for which the speed has been good is that of the longest run of good
/// reports at the end.
proof fn lemma_good_streak(config: Config, events: Seq<MeterEvent>)
    ensures
        forall|from: int|
            0 <= from <= events.len() && #[trigger] all_good(
                events.skip(from),
                config.threshold_mbps,
            ) ==> time_of(events.skip(from)) <= MeterView::fresh(config, None).run(
                events,
            ).good_elapsed,
        exists|from: int|
            0 <= from <= events.len() && #[trigger] all_good(
                events.skip(from),
                config.threshold_mbps,
            ) && time_of(events.skip(from)) == MeterView::fresh(config, None).run(
                events,
            ).good_elapsed,
    decreases events.len(),
{
    let th = config.threshold_mbps;
    let start = MeterView::fresh(config, None);
    if events.len() == 0 {
        assert(events.skip(0) =~= Seq::<MeterEvent>::empty());
        assert(all_good(events.skip(0), th));
    } else {
        let front = events.drop_last();
        let last = events.last();
        lemma_good_streak(config, front);
        lemma_meter_counts(config, None, front);
        let before = start.run(front);
        let after = start.run(events);
        assert forall|from: int| 0 <= from <= events.len() && #[trigger] all_good(
            events.skip(from),
            th,
        ) implies time_of(events.skip(from)) <= after.good_elapsed by {
            if from < events.len() {
                let part = events.skip(from);
                assert(part.drop_last() =~= front.skip(from));
                assert(part.last() == last);
                assert(part[part.len() - 1] == last);
                assert(all_good(front.skip(from), th)) by {
                    assert forall|i: int| 0 <= i < front.skip(from).len() implies (
                    #[trigger] front.skip(from)[i] matches MeterEvent::Ticked(tick) ==> tick.elapsed
                        == 0 || tick.last_mbps.exceeds(th)) by {
                        assert(front.skip(from)[i] == part[i]);
                    }
                }
            } else {
                assert(events.skip(from) =~= Seq::<MeterEvent>::empty());
            }
        }
        let bad = last matches MeterEvent::Ticked(tick) && tick.elapsed > 0
            && !tick.last_mbps.exceeds(th);
        if bad {
            let from = events.len() as int;
            assert(events.skip(from) =~= Seq::<MeterEvent>::empty());
            assert(all_good(events.skip(from), th));
        } else {
            let from = choose|from: int|
                0 <= from <= front.len() && #[trigger] all_good(front.skip(from), th) && time_of(
                    front.skip(from),
                ) == before.good_elapsed;
            let part = events.skip(from);
            assert(part.drop_last() =~= front.skip(from));
            assert(part.last() == last);
            assert(all_good(part, th)) by {
                assert forall|i: int| 0 <= i < part.len() implies (
                #[trigger] part[i] matches MeterEvent::Ticked(tick) ==> tick.elapsed == 0
                    || tick.last_mbps.exceeds(th)) by {
                    if i < front.skip(from).len() {
                        assert(part[i] == front.skip(from)[i]);
                    }
                }
            }
            assert(all_good(events.skip(from), th));
        }
    }
}

/// A check ends at the first report, with time since the last, that comes when its time is
/// over, with all that came in; it never ends in a recovery, and saturation never ends as
/// a check does.
pub proof fn lemma_check(config: Config, goal: Option<Span>, events: Seq<MeterEvent>, tick: TickView)
    requires
        bytes_of(events) <= u64::MAX,
    ensures
        goal matches Some(length) ==> MeterView::fresh(config, goal).run(events).verdict(tick)
            == if tick.elapsed > 0 && tick.since_start >= length.nanos {
            Verdict::CheckDone(bytes_of(events) as u64)
        } else {
            Verdict::Continue
        },
        goal is None ==> !(MeterView::fresh(config, goal).run(events).verdict(tick) is CheckDone),
{
    lemma_meter_counts(config, goal, events);
}

/// After a warning that nothing comes in there is no other until something has come in.
pub proof fn lemma_one_warning(
    meter: MeterView,
    tick: TickView,
    events: Seq<MeterEvent>,
    later: TickView,
)
    requires
        meter.warns(tick),
        all_silent(events),
    ensures
        !meter.ticked(tick).run(events).warns(later),
        meter.ticked(tick).run(events).warned_zero,
        meter.ticked(tick).run(events).window_bytes == 0,
    decreases events.len(),
{
    if events.len() > 0 {
        let front = events.drop_last();
        assert(all_silent(front)) by {
            assert forall|i: int| 0 <= i < front.len() implies (
            #[trigger] front[i] matches MeterEvent::Received(len) ==> len == 0) by {
                assert(front[i] == events[i]);
            }
        }
        lemma_one_warning(meter, tick, front, later);
        assert(events[events.len() - 1] == events.last());
    }
}

/// Whether time passes before every report in `events`.
pub open spec fn all_timed(events: Seq<MeterEvent>) -> bool {
    forall|i: int|
        0 <= i < events.len() ==> (#[trigger] events[i] matches MeterEvent::Ticked(tick)
            ==> tick.elapsed > 0)
}

/// A warning that nothing comes in is due only where nothing has come in for at least
/// three seconds on end, as long as time passes before every report.
pub proof fn lemma_warning(
    config: Config,
    goal: Option<Span>,
    events: Seq<MeterEvent>,
    tick: TickView,
)
    requires
        all_timed(events),
        MeterView::fresh(config, goal).run(events).warns(tick),
    ensures
        exists|from: int|
            0 <= from <= events.len() && #[trigger] all_silent(events.skip(from)) && time_of(
                events.skip(from),
            ) + tick.elapsed >= 3_000_000_000,
{
    lemma_silent_streak(config, goal, events);
}

/// The time for which nothing has come in is that of a silent run at the end.
proof fn lemma_silent_streak(config: Config, goal: Option<Span>, events: Seq<MeterEvent>)
    requires
        all_timed(events),
    ensures
        MeterView::fresh(config, goal).run(events).window_bytes == 0 ==> exists|from: int|
            0 <= from <= events.len() && #[trigger] all_silent(events.skip(from)) && time_of(
                events.skip(from),
            ) == MeterView::fresh(config, goal).run(events).zero_streak,
    decreases events.len(),
{
    let start = MeterView::fresh(config, goal);
    if events.len() == 0 {
        assert(events.skip(0) =~= Seq::<MeterEvent>::empty());
        assert(all_silent(events.skip(0)));
    } else {
        let front = events.drop_last();
        let last = events.last();
        assert(events[events.len() - 1] == last);
        assert(all_timed(front)) by {
            assert forall|i: int| 0 <= i < front.len() implies (
            #[trigger] front[i] matches MeterEvent::Ticked(tick) ==> tick.elapsed > 0) by {
                assert(front[i] == events[i]);
            }
        }
        lemma_silent_streak(config, goal, front);
        let before = start.run(front);
        if start.run(events).window_bytes == 0 {
            if before.window_bytes > 0 {
                let from = events.len() as int;
                assert(events.skip(from) =~= Seq::<MeterEvent>::empty());
                assert(all_silent(events.skip(from)));
            } else {
                let from = choose|from: int|
                    0 <= from <= front.len() && #[trigger] all_silent(front.skip(from)) && time_of(
                        front.skip(from),
                    ) == before.zero_streak;
                let part = events.skip(from);
                assert(part.drop_last() =~= front.skip(from));
                assert(part.last() == last);
                assert forall|i: int| 0 <= i < part.len() implies (
                #[trigger] part[i] matches MeterEvent::Received(len) ==> len == 0) by {
                    if i < front.skip(from).len() {
                        assert(part[i] == front.skip(from)[i]);
                    }
                }
                assert(all_silent(events.skip(from)));
            }
        }
    }
}

/// A download without a goal goes on or has recovered, and nothing else. It goes on wherever
/// the reports at the end, each with a speed above the threshold, cover less than fifteen
/// seconds, however much has come in.
pub proof fn lemma_saturation_goes_on(config: Config, events: Seq<MeterEvent>, tick: TickView)
    ensures
        ({
            let verdict = MeterView::fresh(config, None).run(events).verdict(tick);
            verdict is Continue || verdict == Verdict::Recovered(
                CycleResult { avg_mbps: tick.last_mbps },
            )
        }),
        tick.elapsed == 0 ==> MeterView::fresh(config, None).run(events).verdict(tick) is Continue,
        (forall|from: int|
            0 <= from <= events.len() && (forall|i: int|
                from <= i < events.len() ==> (#[trigger] events[i] matches MeterEvent::Ticked(t)
                    ==> t.elapsed == 0 || t.last_mbps.exceeds(config.threshold_mbps)))
                && tick.last_mbps.exceeds(config.threshold_mbps) ==> #[trigger] time_of(
                events.skip(from),
            ) + tick.elapsed < 15_000_000_000) ==> MeterView::fresh(config, None).run(
            events,
        ).verdict(tick) is Continue,
{
    lemma_meter_counts(config, None, events);
    let verdict = MeterView::fresh(config, None).run(events).verdict(tick);
    if verdict is Recovered {
        lemma_recovery(config, events, tick);
        let all = events.push(MeterEvent::Ticked(tick));
        let th = config.threshold_mbps;
        let from = choose|from: int|
            0 <= from <= events.len() && #[trigger] all_good(all.skip(from), th) && time_of(
                all.skip(from),
            ) >= 15_000_000_000;
        let part = all.skip(from);
        assert(part.drop_last() =~= events.skip(from));
        assert(part.last() == MeterEvent::Ticked(tick));
        assert(part[part.len() - 1] == MeterEvent::Ticked(tick));
        assert forall|i: int| from <= i < events.len() implies (
        #[trigger] events[i] matches MeterEvent::Ticked(t) ==> t.elapsed == 0
            || t.last_mbps.exceeds(th)) by {
            assert(part[i - from] == events[i]);
        }
        assert(time_of(part) == time_of(events.skip(from)) + tick.elapsed);
    }
}

/// Whatever state a meter is in, a report never says that the download was stopped; without a
/// goal it never ends as a check does, and with one it never ends in a recovery.
pub proof fn lemma_verdicts(meter: MeterView, tick: TickView)
    ensures
        !(meter.verdict(tick) is Stopped),
        meter.goal is None ==> !(meter.verdict(tick) is CheckDone),
        meter.goal is Some ==> !(meter.verdict(tick) is Recovered),
{
}

/// A report changes neither what the download is for nor what has come in. Where no time has
/// passed since the last it only starts the count anew. Else one with nothing new lengthens the
/// silence and one with something ends it; and the time of good speeds grows with a speed above
/// the threshold and starts anew with any other. What comes in changes nothing but the counts.
pub proof fn lemma_meter_steps(meter: MeterView, tick: TickView, len: nat)
    ensures
        meter.ticked(tick).goal == meter.goal,
        meter.ticked(tick).threshold == meter.threshold,
        meter.ticked(tick).window == meter.window,
        meter.ticked(tick).total_bytes == meter.total_bytes,
        meter.ticked(tick).window_bytes == 0,
        tick.elapsed == 0 ==> {
            &&& meter.ticked(tick).samples == meter.samples
            &&& meter.ticked(tick).good_elapsed == meter.good_elapsed
            &&& meter.ticked(tick).zero_streak == meter.zero_streak
            &&& meter.ticked(tick).warned_zero == meter.warned_zero
        },
        tick.elapsed > 0 && meter.window_bytes == 0 ==> {
            &&& meter.ticked(tick).zero_streak == meter.zero_streak + tick.elapsed
            &&& meter.ticked(tick).warned_zero <==> meter.warned_zero || meter.zero_streak
                + tick.elapsed >= 3_000_000_000
        },
        tick.elapsed > 0 && meter.window_bytes > 0 ==> {
            &&& meter.ticked(tick).zero_streak == 0
            &&& !meter.ticked(tick).warned_zero
        },
        tick.elapsed > 0 && meter.goal is None ==> meter.ticked(tick).good_elapsed
            == if tick.last_mbps.exceeds(meter.threshold) {
            meter.good_elapsed + tick.elapsed
        } else {
            0
        },
        meter.goal is Some ==> meter.ticked(tick).good_elapsed == meter.good_elapsed,
        meter.received(len).total_bytes == meter.total_bytes + len,
        meter.received(len).window_bytes == meter.window_bytes + len,
        meter.received(len).goal == meter.goal,
        meter.received(len).threshold == meter.threshold,
        meter.received(len).window == meter.window,
        meter.received(len).good_elapsed == meter.good_elapsed,
        meter.received(len).samples == meter.samples,
        meter.received(len).zero_streak == meter.zero_streak,
        meter.received(len).warned_zero == meter.warned_zero,
{
}

/// Where nothing has come in since a report for at least three seconds, a warning has been
/// given, at some report so far.
pub proof fn lemma_warning_given(
    config: Config,
    goal: Option<Span>,
    events: Seq<MeterEvent>,
    from: int,
)
    requires
        0 <= from <= events.len(),
        bytes_since_report(events.take(from)) == 0,
        all_silent(events.skip(from)),
        time_of(events.skip(from)) >= 3_000_000_000,
    ensures
        exists|k: int| #[trigger] warned_at(config, goal, events, k),
{
    lemma_long_silence(config, goal, events, from);
    lemma_silence_warned(config, goal, events);
    lemma_warned_before(config, goal, events);
}

/// Whether event `k` is a report at which a warning is given that nothing comes in.
pub open spec fn warned_at(config: Config, goal: Option<Span>, events: Seq<MeterEvent>, k: int) -> bool {
    0 <= k < events.len() && (events[k] matches MeterEvent::Ticked(tick) && MeterView::fresh(
        config,
        goal,
    ).run(events.take(k)).warns(tick))
}

/// A silent run at the end counts in full.
proof fn lemma_long_silence(config: Config, goal: Option<Span>, events: Seq<MeterEvent>, from: int)
    requires
        0 <= from <= events.len(),
        bytes_since_report(events.take(from)) == 0,
        all_silent(events.skip(from)),
    ensures
        MeterView::fresh(config, goal).run(events).window_bytes == 0,
        MeterView::fresh(config, goal).run(events).zero_streak >= time_of(events.skip(from)),
    decreases events.len() - from,
{
    lemma_meter_counts(config, goal, events);
    if from == events.len() {
        assert(events.take(from) =~= events);
        assert(events.skip(from) =~= Seq::<MeterEvent>::empty());
    } else {
        let front = events.drop_last();
        let last = events.last();
        let part = events.skip(from);
        assert(part.drop_last() =~= front.skip(from));
        assert(part.last() == last);
        assert(part[part.len() - 1] == last);
        assert(front.take(from) =~= events.take(from));
        assert forall|i: int| 0 <= i < front.skip(from).len() implies (
        #[trigger] front.skip(from)[i] matches MeterEvent::Received(len) ==> len == 0) by {
            assert(front.skip(from)[i] == part[i]);
        }
        lemma_long_silence(config, goal, front, from);
    }
}

/// A silence of three seconds has been reported.
proof fn lemma_silence_warned(config: Config, goal: Option<Span>, events: Seq<MeterEvent>)
    ensures
        MeterView::fresh(config, goal).run(events).zero_streak >= 3_000_000_000 ==> MeterView::fresh(
            config,
            goal,
        ).run(events).warned_zero,
    decreases events.len(),
{
    if events.len() > 0 {
        lemma_silence_warned(config, goal, events.drop_last());
    }
}

/// A meter that has warned has done so at some report.
proof fn lemma_warned_before(config: Config, goal: Option<Span>, events: Seq<MeterEvent>)
    ensures
        MeterView::fresh(config, goal).run(events).warned_zero ==> exists|k: int| #[trigger]
            warned_at(config, goal, events, k),
    decreases events.len(),
{
    if events.len() > 0 {
        let front = events.drop_last();
        lemma_warned_before(config, goal, front);
        if MeterView::fresh(config, goal).run(events).warned_zero {
            if MeterView::fresh(config, goal).run(front).warned_zero {
                let k = choose|k: int| #[trigger] warned_at(config, goal, front, k);
                assert(front.take(k) =~= events.take(k));
                assert(front[k] == events[k]);
                assert(warned_at(config, goal, events, k));
            } else {
                let k = events.len() - 1;
                assert(events.take(k) =~= front);
                assert(warned_at(config, goal, events, k));
            }
        }
    }
}

/// What a report says: nothing, where no time has passed since the last; else the speed, then a
/// warning, where nothing has come in for three seconds and none has been given, and then the
/// recovery, where the speed has recovered.
pub proof fn lemma_report_lines(meter: MeterView, tick: TickView)
    ensures
        tick.elapsed == 0 ==> meter.lines(tick).len() == 0,
        tick.elapsed > 0 ==> {
            let warned = meter.window_bytes == 0 && !meter.warned_zero && meter.zero_streak
                + tick.elapsed >= 3_000_000_000;
            let recovered = meter.goal is None && tick.last_mbps.exceeds(meter.threshold)
                && meter.good_elapsed + tick.elapsed >= 15_000_000_000;
            let speed = "  Current: "@ + tick.shown + " Mbps"@;
            let warning =
                "  ПРЕДУПРЕЖДЕНИЕ: пока нет данных; адрес может быть заблокирован или недоступен."@;
            let recovery = "  Скорость восстановилась до "@ + tick.shown + " Мбит/с."@;
            &&& !warned && !recovered ==> meter.lines(tick) == seq![speed]
            &&& warned && !recovered ==> meter.lines(tick) == seq![speed, warning]
            &&& !warned && recovered ==> meter.lines(tick) == seq![speed, recovery]
            &&& warned && recovered ==> meter.lines(tick) == seq![speed, warning, recovery]
        },
{
    assert(meter.lines(tick).len() <= 3);
}

/// Where nothing has come in since a report for at least three seconds, a warning has been
/// given, and nothing has come in since that warning, as long as time passes before every
/// report.
pub proof fn lemma_warning_in_time(
    config: Config,
    goal: Option<Span>,
    events: Seq<MeterEvent>,
    from: int,
)
    requires
        all_timed(events),
        0 <= from <= events.len(),
        bytes_since_report(events.take(from)) == 0,
        all_silent(events.skip(from)),
        time_of(events.skip(from)) >= 3_000_000_000,
    ensures
        exists|k: int| #[trigger]
            warned_at(config, goal, events, k) && all_silent(events.skip(k)),
{
    lemma_long_silence(config, goal, events, from);
    lemma_silence_warned(config, goal, events);
    lemma_silent_since_warning(config, goal, events);
}

/// A meter that has warned and has got nothing since the last report has got nothing since the
/// warning.
proof fn lemma_silent_since_warning(config: Config, goal: Option<Span>, events: Seq<MeterEvent>)
    requires
        all_timed(events),
        MeterView::fresh(config, goal).run(events).warned_zero,
        MeterView::fresh(config, goal).run(events).window_bytes == 0,
    ensures
        exists|k: int| #[trigger]
            warned_at(config, goal, events, k) && all_silent(events.skip(k)),
    decreases events.len(),
{
    let start = MeterView::fresh(config, goal);
    if events.len() > 0 {
        let front = events.drop_last();
        let last = events.last();
        assert(events[events.len() - 1] == last);
        assert(start.run(front).window_bytes == 0);
        if start.run(front).warned_zero {
            assert(all_timed(front)) by {
                assert forall|i: int| 0 <= i < front.len() implies (
                #[trigger] front[i] matches MeterEvent::Ticked(tick) ==> tick.elapsed > 0) by {
                    assert(front[i] == events[i]);
                }
            }
            lemma_silent_since_warning(config, goal, front);
            let k = choose|k: int| #[trigger]
                warned_at(config, goal, front, k) && all_silent(front.skip(k));
            assert(front.take(k) =~= events.take(k));
            assert(front[k] == events[k]);
            let part = events.skip(k);
            assert forall|i: int| 0 <= i < part.len() implies (
            #[trigger] part[i] matches MeterEvent::Received(len) ==> len == 0) by {
                if i < front.skip(k).len() {
                    assert(part[i] == front.skip(k)[i]);
                } else {
                    assert(part[i] == last);
                }
            }
            assert(warned_at(config, goal, events, k) && all_silent(events.skip(k)));
        } else {
            let k = events.len() - 1;
            assert(events.take(k) =~= front);
            assert(events.skip(k) =~= seq![last]);
            assert(warned_at(config, goal, events, k) && all_silent(events.skip(k)));
        }
    }
}

} // verus!
