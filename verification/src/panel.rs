//! The state of the window.

use std::collections::VecDeque;
use vstd::prelude::*;

use crate::messages;
use crate::text::views;

verus! {

/// How many lines the log keeps.
pub const LOG_LINES: usize = 500;

/// The state of the window: whether the monitor runs, and what it has reported.
pub struct Panel {
    pub running: bool,
    pub lines: VecDeque<String>,
}

/// `log` with `line` behind it, the oldest line dropped where the log is full.
pub open spec fn logged(log: Seq<Seq<char>>, line: Seq<char>) -> Seq<Seq<char>> {
    if log.len() >= LOG_LINES {
        log.drop_first().push(line)
    } else {
        log.push(line)
    }
}

/// What the log holds once the monitor has been started.
pub open spec fn opening(android: bool) -> Seq<Seq<char>> {
    if android {
        seq![messages::window_starting_text(), messages::window_android_text()]
    } else {
        seq![messages::window_starting_text()]
    }
}

/// The state of the window, as a user sees it.
pub struct PanelView {
    pub running: bool,
    /// The lines in the log, the oldest first.
    pub log: Seq<Seq<char>>,
}

impl PanelView {
    /// The window after a line that the monitor reports.
    pub open spec fn appended(self, line: Seq<char>) -> PanelView {
        PanelView { log: logged(self.log, line), ..self }
    }

    /// The window after the user asks to start: where the monitor runs, nothing changes.
    pub open spec fn started(self, android: bool) -> PanelView {
        if self.running {
            self
        } else {
            PanelView { running: true, log: opening(android) }
        }
    }

    /// The window after the user asks to stop.
    pub open spec fn stopped(self) -> PanelView {
        PanelView { running: false, log: self.log.push(messages::window_stopping_text()) }
    }
}

impl View for Panel {
    type V = PanelView;

    open spec fn view(&self) -> PanelView {
        PanelView { running: self.running, log: self.log() }
    }
}

impl Panel {
    /// The lines in the log, the oldest first.
    pub open spec fn log(&self) -> Seq<Seq<char>> {
        views(self.lines@)
    }

    /// A window before the monitor has been started.
    pub fn new() -> (r: Panel)
        ensures
            r@ == (PanelView { running: false, log: seq![] }),
            !r.running,
            r.lines@.len() == 0,
    {
        let r = Panel { running: false, lines: VecDeque::new() };
        assert(r.log() =~= Seq::<Seq<char>>::empty());
        r
    }

    /// Adds a line that the monitor reports.
    pub fn append(&mut self, line: String)
        ensures
            final(self)@ == old(self)@.appended(line@),
            final(self).running == old(self).running,
            old(self).lines@.len() < 500 ==> final(self).lines@ == old(self).lines@.push(line),
            old(self).lines@.len() >= 500 ==> final(self).lines@ == old(
                self,
            ).lines@.drop_first().push(line),
    {
        let ghost before = self.log();
        if self.lines.len() >= LOG_LINES {
            self.lines.pop_front();
            assert(self.log() =~= before.drop_first());
        }
        let ghost kept = self.log();
        self.lines.push_back(line);
        assert(self.log() =~= kept.push(line@));
    }

    /// The user asks to start: where the monitor does not run yet the log begins anew and
    /// the monitor is to be started, which the result says.
    pub fn start(&mut self, android: bool) -> (r: bool)
        ensures
            r == !old(self).running,
            final(self)@ == old(self)@.started(android),
            final(self).running,
            old(self).running ==> final(self).lines@ == old(self).lines@,
            !old(self).running ==> {
                &&& final(self).lines@.len() == if android {
                    2nat
                } else {
                    1nat
                }
                &&& final(self).lines@[0]@ == "[интерфейс] запуск..."@
                &&& android ==> final(self).lines@[1]@
                    == "[интерфейс] android: если приложение выгружено из фона, откройте его и нажмите «Запустить»."@
            },
    {
        if self.running {
            return false;
        }
        self.lines.clear();
        self.lines.push_back(messages::window_starting());
        if android {
            self.lines.push_back(messages::window_android());
        }
        assert(self.log() =~= opening(android));
        self.running = true;
        true
    }

    /// The user asks to stop. The result says whether a worker runs that is to be told: the
    /// one that the last start brought, where it has not been told already.
    pub fn stop(&mut self) -> (r: bool)
        ensures
            r == old(self).running,
            final(self)@ == old(self)@.stopped(),
            !final(self).running,
            final(self).lines@.len() == old(self).lines@.len() + 1,
            final(self).lines@.drop_last() == old(self).lines@,
            final(self).lines@.last()@ == "[интерфейс] запрошена остановка"@,
    {
        let ghost before = self.log();
        self.lines.push_back(messages::window_stopping());
        assert(self.log() =~= before.push(messages::window_stopping_text()));
        let told = self.running;
        self.running = false;
        told
    }

    /// The state as the window shows it.
    pub fn status_text(&self) -> (r: &'static str)
        ensures
            r@ == if self.running {
                "Работает"@
            } else {
                "Остановлено"@
            },
    {
        if self.running {
            "Работает"
        } else {
            "Остановлено"
        }
    }

    /// The style in which the window shows the state.
    pub fn status_class(&self) -> (r: &'static str)
        ensures
            r@ == if self.running {
                "status-pill is-running"@
            } else {
                "status-pill is-stopped"@
            },
    {
        if self.running {
            "status-pill is-running"
        } else {
            "status-pill is-stopped"
        }
    }
}

/// The log after the monitor has reported `lines`.
pub open spec fn logged_all(log: Seq<Seq<char>>, lines: Seq<Seq<char>>) -> Seq<Seq<char>>
    decreases lines.len(),
{
    if lines.len() == 0 {
        log
    } else {
        logged(logged_all(log, lines.drop_last()), lines.last())
    }
}

/// The log holds the last five hundred lines of all that was reported since it began, in
/// order.
pub proof fn lemma_log_keeps_last(log: Seq<Seq<char>>, lines: Seq<Seq<char>>)
    requires
        log.len() <= LOG_LINES,
    ensures
        logged_all(log, lines).len() <= LOG_LINES,
        logged_all(log, lines) == (log + lines).skip(
            if log.len() + lines.len() > LOG_LINES {
                log.len() + lines.len() - LOG_LINES
            } else {
                0
            },
        ),
    decreases lines.len(),
{
    if lines.len() == 0 {
        assert(log + lines =~= log);
        assert(log.skip(0) =~= log);
    } else {
        let front = lines.drop_last();
        lemma_log_keeps_last(log, front);
        let from = if log.len() + front.len() > LOG_LINES {
            log.len() + front.len() - LOG_LINES
        } else {
            0
        };
        let before = (log + front).skip(from);
        assert(before.push(lines.last()) =~= (log + lines).skip(from));
        if before.len() >= LOG_LINES {
            assert(before.drop_first().push(lines.last()) =~= (log + lines).skip(from + 1));
        }
    }
}

/// What happens to the window.
pub enum PanelEvent {
    /// The user asks to start; the value says whether this is Android.
    Start(bool),
    /// The user asks to stop.
    Stop,
    /// The monitor reports a line.
    Report(Seq<char>),
}

/// What has happened to the window, and to the workers that it started.
pub struct History {
    pub panel: PanelView,
    /// How many workers have been started.
    pub started: nat,
    /// The workers that have been told to stop, numbered from zero as they were started, in
    /// the order in which they were told.
    pub told: Seq<nat>,
}

/// What `events` come to, from the first on. A start brings a worker exactly where
/// `Panel::start` says so, and a stop tells the last worker that was started exactly where
/// `Panel::stop` says so.
pub open spec fn history(events: Seq<PanelEvent>) -> History
    decreases events.len(),
{
    if events.len() == 0 {
        History { panel: PanelView { running: false, log: seq![] }, started: 0, told: seq![] }
    } else {
        let before = history(events.drop_last());
        match events.last() {
            PanelEvent::Start(android) => History {
                panel: before.panel.started(android),
                started: if before.panel.running {
                    before.started
                } else {
                    before.started + 1
                },
                ..before
            },
            PanelEvent::Stop => History {
                panel: before.panel.stopped(),
                told: if before.panel.running {
                    before.told.push((before.started - 1) as nat)
                } else {
                    before.told
                },
                ..before
            },
            PanelEvent::Report(line) => History { panel: before.panel.appended(line), ..before },
        }
    }
}

/// Whatever is clicked, each worker is told to stop at most once, in the order in which they
/// were started, and at most one is not told yet: the last, while the monitor runs.
pub proof fn lemma_workers_told(events: Seq<PanelEvent>)
    ensures
        history(events).told == Seq::new(history(events).told.len(), |i: int| i as nat),
        history(events).told.no_duplicates(),
        history(events).started == history(events).told.len() + if history(events).panel.running {
            1nat
        } else {
            0nat
        },
    decreases events.len(),
{
    if events.len() > 0 {
        lemma_workers_told(events.drop_last());
    }
    let told = history(events).told;
    assert(told =~= Seq::new(told.len(), |i: int| i as nat));
    assert forall|i: int, j: int| 0 <= i < j < told.len() implies told[i] != told[j] by {
        assert(told[i] == i as nat && told[j] == j as nat);
    }
}

/// A start while the monitor runs changes nothing: no worker comes, and the log stays. One
/// while it does not brings one worker and begins the log anew. After a stop the monitor
/// does not run.
pub proof fn lemma_clicks(events: Seq<PanelEvent>, android: bool)
    ensures
        history(events).panel.running ==> history(events.push(PanelEvent::Start(android)))
            == history(events),
        !history(events).panel.running ==> {
            let after = history(events.push(PanelEvent::Start(android)));
            &&& after.panel == (PanelView { running: true, log: opening(android) })
            &&& after.started == history(events).started + 1
            &&& after.told == history(events).told
        },
        !history(events.push(PanelEvent::Stop)).panel.running,
{
    assert(events.push(PanelEvent::Start(android)).drop_last() =~= events);
}

/// A stop puts one line behind the log, brings no worker, and tells one exactly where the
/// monitor runs. A line that is reported stands last in the log, and changes nothing else.
pub proof fn lemma_stops_and_reports(events: Seq<PanelEvent>, line: Seq<char>)
    ensures
        ({
            let before = history(events);
            let after = history(events.push(PanelEvent::Stop));
            &&& after.panel.log == before.panel.log.push("[интерфейс] запрошена остановка"@)
            &&& after.started == before.started
            &&& before.panel.running ==> after.told == before.told.push((before.started - 1) as nat)
            &&& !before.panel.running ==> after.told == before.told
        }),
        ({
            let before = history(events);
            let after = history(events.push(PanelEvent::Report(line)));
            &&& after.panel.running == before.panel.running
            &&& after.panel.log.last() == line
            &&& before.panel.log.len() < 500 ==> after.panel.log == before.panel.log.push(line)
            &&& before.panel.log.len() >= 500 ==> after.panel.log
                == before.panel.log.drop_first().push(line)
            &&& after.started == before.started
            &&& after.told == before.told
        }),
{
    assert(events.push(PanelEvent::Stop).drop_last() =~= events);
    assert(events.push(PanelEvent::Report(line)).drop_last() =~= events);
}

/// A log that begins anew holds one line, and on Android one more.
pub proof fn lemma_opening()
    ensures
        opening(false) == seq!["[интерфейс] запуск..."@],
        opening(true) == seq![
            "[интерфейс] запуск..."@,
            "[интерфейс] android: если приложение выгружено из фона, откройте его и нажмите «Запустить»."@,
        ],
{
}

} // verus!
