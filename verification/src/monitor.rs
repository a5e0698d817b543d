//! The monitor: it checks the speed, saturates the connection where the speed is too low,
//! and rests in between.

use vstd::prelude::*;

use crate::config::Config;
use crate::messages;
use crate::meter::CycleResult;
use crate::rate::Rate;
use crate::selection::chosen;
use crate::selection::lemma_selection;
use crate::selection::rotation;
use crate::sources::copy_from;
use crate::sources::or_default;
use crate::sources::targets_or_default;
use crate::sources::DEFAULT_TEST_URL;
use crate::span::Span;
use crate::text::decimal;
use crate::text::views;

verus! {

/// What the monitor is doing.
#[derive(Clone, Copy, Debug, PartialEq, Eq, Structural)]
pub enum Phase {
    /// It has not begun.
    Idle,
    /// It measures the speed.
    Check,
    /// It saturates the connection.
    Saturate,
    /// It rests.
    Sleep,
    /// It is over.
    Stopped,
}

/// How a phase ended.
#[derive(Clone, Copy, Debug, PartialEq, Eq, Structural)]
pub struct PhaseEnd {
    /// Whether the monitor has been asked to stop.
    pub stop: bool,
    /// What was measured; only a check is judged by it.
    pub result: CycleResult,
}

impl Phase {
    /// The phase that follows this one, where a speed from `threshold` on is healthy.
    pub open spec fn successor(self, threshold: Rate, end: PhaseEnd) -> Phase {
        if end.stop {
            Phase::Stopped
        } else {
            match self {
                Phase::Idle => Phase::Check,
                Phase::Check => if end.result.avg_mbps.reaches(threshold) {
                    Phase::Sleep
                } else {
                    Phase::Saturate
                },
                Phase::Saturate => Phase::Sleep,
                Phase::Sleep => Phase::Check,
                Phase::Stopped => Phase::Stopped,
            }
        }
    }

    /// The lines that report the step from this phase to the next. `shown` is what was
    /// measured, as it is shown.
    pub open spec fn lines(
        self,
        config: Config,
        end: PhaseEnd,
        shown: Seq<char>,
        android: bool,
    ) -> Seq<Seq<char>> {
        let next = self.successor(config.threshold_mbps, end);
        if self is Check && next is Sleep {
            if android {
                seq![messages::healthy_text(shown), messages::android_healthy_text()]
            } else {
                seq![messages::healthy_text(shown)]
            }
        } else if self is Saturate && next is Sleep {
            if android {
                seq![messages::restored_text(), messages::android_restored_text()]
            } else {
                seq![messages::restored_text()]
            }
        } else if next is Saturate {
            seq![messages::degraded_text(shown)]
        } else if next is Check {
            seq![messages::checking_text((config.check_duration.nanos / 1_000_000_000) as nat)]
        } else {
            seq![]
        }
    }

    /// The phase that follows this one, and the lines that report the step.
    pub fn next(self, config: &Config, end: PhaseEnd, shown: &str, android: bool) -> (r: (
        Phase,
        Vec<String>,
    ))
        ensures
            r.0 == self.successor(config.threshold_mbps, end),
            views(r.1@) == self.lines(*config, end, shown@, android),
            end.stop || self is Stopped ==> r.0 is Stopped && r.1@.len() == 0,
            !end.stop && (self is Idle || self is Sleep) ==> {
                &&& r.0 is Check
                &&& r.1@.len() == 1
                &&& r.1@[0]@ == "CHECKING: Measuring current speed ("@ + decimal(
                    (config.check_duration.nanos / 1_000_000_000) as nat,
                ) + "s sample)..."@
            },
            !end.stop && self is Check && end.result.avg_mbps.reaches(config.threshold_mbps) ==> {
                &&& r.0 is Sleep
                &&& r.1@.len() == if android {
                    2nat
                } else {
                    1nat
                }
                &&& r.1@[0]@ == "OK: Speed is "@ + shown@ + " Mbps. Sleeping for 1 hour..."@
                &&& android ==> r.1@[1]@
                    == "ANDROID: напоминание — через 1 час начнется новая проверка, только если приложение не выгружено из фона."@
            },
            !end.stop && self is Check && !end.result.avg_mbps.reaches(config.threshold_mbps) ==> {
                &&& r.0 is Saturate
                &&& r.1@.len() == 1
                &&& r.1@[0]@ == "НИЗКАЯ СКОРОСТЬ: "@ + shown@
                    + " Мбит/с. Запускаем непрерывное насыщение..."@
            },
            !end.stop && self is Saturate ==> {
                &&& r.0 is Sleep
                &&& r.1@.len() == if android {
                    2nat
                } else {
                    1nat
                }
                &&& r.1@[0]@
                    == "ВОССТАНОВЛЕНО: скорость вернулась к норме. Переходим в цикл сна на 1 час."@
                &&& android ==> r.1@[1]@
                    == "ANDROID: напоминание — если система остановит приложение в фоне, откройте его и нажмите «Запустить»."@
            },
    {
        let mut lines: Vec<String> = Vec::new();
        let next = if end.stop {
            Phase::Stopped
        } else {
            match self {
                Phase::Idle | Phase::Sleep => {
                    lines.push(messages::checking(config.check_duration.as_secs()));
                    Phase::Check
                },
                Phase::Check => {
                    if end.result.avg_mbps.at_least(config.threshold_mbps) {
                        lines.push(messages::healthy(shown));
                        if android {
                            lines.push(messages::android_healthy());
                        }
                        Phase::Sleep
                    } else {
                        lines.push(messages::degraded(shown));
                        Phase::Saturate
                    }
                },
                Phase::Saturate => {
                    lines.push(messages::restored());
                    if android {
                        lines.push(messages::android_restored());
                    }
                    Phase::Sleep
                },
                Phase::Stopped => Phase::Stopped,
            }
        };
        assert(views(lines@) =~= self.lines(*config, end, shown@, android));
        (next, lines)
    }
}

/// What the monitor works with.
pub struct MonitorPlan {
    /// The source that the speed is measured with.
    pub primary_target: String,
    /// The sources of a check.
    pub check_targets: Vec<String>,
    /// The sources of a saturation.
    pub saturation_targets: Vec<String>,
}

/// The source that the speed is measured with: the first given, or the default source.
pub open spec fn primary_of(targets: Seq<Seq<char>>) -> Seq<char> {
    if targets.len() == 0 {
        DEFAULT_TEST_URL@
    } else {
        targets[0]
    }
}

/// The lines with which the monitor begins.
pub open spec fn banner_lines(
    targets: Seq<Seq<char>>,
    streams: nat,
    shown_threshold: Seq<char>,
    android: bool,
) -> Seq<Seq<char>> {
    let head = seq![
        messages::title_text(),
        messages::threshold_text(shown_threshold),
        messages::streams_text(streams),
        messages::primary_text(primary_of(targets)),
    ];
    let spread = if or_default(targets).len() > 1 {
        seq![messages::rotation_text(or_default(targets).len())]
    } else {
        seq![]
    };
    let hint = if android {
        seq![messages::android_background_text()]
    } else {
        seq![]
    };
    head + spread + seq![messages::cycle_text()] + hint + seq![messages::rule_text()]
}

/// What the monitor works with on `targets`, and the lines with which it begins.
pub fn plan_monitor(
    targets: &[String],
    config: &Config,
    shown_threshold: &str,
    android: bool,
) -> (r: (MonitorPlan, Vec<String>))
    ensures
        r.0.primary_target@ == primary_of(views(targets@)),
        views(r.0.check_targets@) == seq![primary_of(views(targets@))],
        views(r.0.saturation_targets@) == or_default(views(targets@)),
        views(r.1@) == banner_lines(
            views(targets@),
            config.streams as nat,
            shown_threshold@,
            android,
        ),
        targets@.len() > 0 ==> {
            &&& r.0.primary_target@ == targets@[0]@
            &&& r.0.saturation_targets@ == targets@
        },
        targets@.len() == 0 ==> {
            &&& r.0.primary_target@ == "https://speedtest.selectel.ru/100MB"@
            &&& r.0.saturation_targets@.len() == 1
            &&& r.0.saturation_targets@[0]@ == "https://speedtest.selectel.ru/100MB"@
        },
        r.0.check_targets@.len() == 1,
        r.0.check_targets@[0]@ == r.0.primary_target@,
        ({
            let spread: int = if targets@.len() > 1 {
                1
            } else {
                0
            };
            let hint: int = if android {
                1
            } else {
                0
            };
            &&& r.1@.len() == 6 + spread + hint
            &&& r.1@[0]@ == "=== Автоматический насыщатор Anti-Collision ==="@
            &&& r.1@[1]@ == "Порог: "@ + shown_threshold@ + " Мбит/с"@
            &&& r.1@[2]@ == "Потоки: "@ + decimal(config.streams as nat)
            &&& r.1@[3]@ == "Адрес (основной): "@ + r.0.primary_target@
            &&& targets@.len() > 1 ==> r.1@[4]@ == "Ротация источников: "@ + decimal(targets@.len())
                + " адресов"@
            &&& r.1@[4 + spread]@ == "Режим: Мониторинг -> [Насыщение] -> Сон 1 час"@
            &&& android ==> r.1@[5 + spread]@
                == "ANDROID: в фоне система может выгрузить приложение. Если через час нет новой проверки — откройте приложение и нажмите «Запустить»."@
            &&& r.1@[5 + spread + hint]@ == "------------------------------------------"@
        }),
{
    let saturation_targets = targets_or_default(targets);
    assert(views(saturation_targets@)[0] == saturation_targets@[0]@);
    let primary_target = saturation_targets[0].clone();
    let mut check_targets: Vec<String> = Vec::new();
    check_targets.push(primary_target.clone());
    assert(views(check_targets@) =~= seq![primary_target@]);
    assert(saturation_targets@.len() == views(saturation_targets@).len());
    let mut lines: Vec<String> = Vec::new();
    lines.push(messages::title());
    lines.push(messages::threshold(shown_threshold));
    lines.push(messages::streams(config.streams));
    lines.push(messages::primary(primary_target.as_str()));
    if saturation_targets.len() > 1 {
        lines.push(messages::rotation(saturation_targets.len()));
    }
    lines.push(messages::cycle());
    if android {
        lines.push(messages::android_background());
    }
    lines.push(messages::rule());
    assert(views(lines@) =~= banner_lines(
        views(targets@),
        config.streams as nat,
        shown_threshold@,
        android,
    ));
    (MonitorPlan { primary_target, check_targets, saturation_targets }, lines)
}

/// What there is to do in a phase.
pub enum Work {
    /// Download from these sources, for this long, or until the speed recovers.
    Download(Vec<String>, Option<Span>),
    /// Rest for this long.
    Rest(Span),
    /// Nothing.
    Quit,
}

/// What there is to do in `phase`: a check downloads from the primary source for as long as
/// the settings say; a saturation downloads from all sources until the speed recovers; a
/// rest is as long as the settings say.
pub fn work_in(phase: Phase, plan: &MonitorPlan, config: &Config) -> (r: Work)
    ensures
        match phase {
            Phase::Check => r matches Work::Download(targets, goal) && targets@
                == plan.check_targets@ && views(targets@) == views(plan.check_targets@) && goal
                == Some(config.check_duration),
            Phase::Saturate => r matches Work::Download(targets, goal) && targets@
                == plan.saturation_targets@ && views(targets@) == views(plan.saturation_targets@)
                && goal is None,
            Phase::Sleep => r == Work::Rest(config.sleep_duration),
            Phase::Idle | Phase::Stopped => r is Quit,
        },
{
    match phase {
        Phase::Check => {
            assert(plan.check_targets@.skip(0) =~= plan.check_targets@);
            Work::Download(
                copy_from(plan.check_targets.as_slice(), 0),
                Some(config.check_duration),
            )
        },
        Phase::Saturate => {
            assert(plan.saturation_targets@.skip(0) =~= plan.saturation_targets@);
            Work::Download(copy_from(plan.saturation_targets.as_slice(), 0), None)
        },
        Phase::Sleep => Work::Rest(config.sleep_duration),
        Phase::Idle | Phase::Stopped => Work::Quit,
    }
}

/// What happens during a rest.
#[derive(Clone, Copy, Debug, PartialEq, Eq, Structural)]
pub enum RestEvent {
    /// The time of the rest is over.
    TimeUp,
    /// The flag that asks to stop was set to this.
    Flag(bool),
    /// Nobody is left who could set the flag, which stands at this.
    Closed(bool),
}

/// What follows during a rest.
#[derive(Clone, Copy, Debug, PartialEq, Eq, Structural)]
pub enum RestAction {
    /// The rest is over.
    End,
    /// The rest goes on.
    GoOn,
    /// The rest goes on, and the flag needs no more watching.
    SitOut,
}

/// What follows during a rest: it lasts until its time is over, and nothing but a request to
/// stop ends it sooner.
pub fn on_rest(event: RestEvent) -> (r: RestAction)
    ensures
        r is End <==> event is TimeUp || event == RestEvent::Flag(true) || event
            == RestEvent::Closed(true),
        r is GoOn <==> event == RestEvent::Flag(false),
        r is SitOut <==> event == RestEvent::Closed(false),
{
    match event {
        RestEvent::TimeUp => RestAction::End,
        RestEvent::Flag(stop) => if stop {
            RestAction::End
        } else {
            RestAction::GoOn
        },
        RestEvent::Closed(stop) => if stop {
            RestAction::End
        } else {
            RestAction::SitOut
        },
    }
}

/// The phase of the monitor after phases that ended as `ends` says.
pub open spec fn phase_after(threshold: Rate, ends: Seq<PhaseEnd>) -> Phase
    decreases ends.len(),
{
    if ends.len() == 0 {
        Phase::Idle
    } else {
        phase_after(threshold, ends.drop_last()).successor(threshold, ends.last())
    }
}

/// The connection is saturated exactly where a check has just found a speed that is not
/// healthy.
pub proof fn lemma_saturates_only_when_degraded(threshold: Rate, ends: Seq<PhaseEnd>)
    ensures
        phase_after(threshold, ends) is Saturate <==> {
            &&& ends.len() > 0
            &&& phase_after(threshold, ends.drop_last()) is Check
            &&& !ends.last().stop
            &&& !ends.last().result.avg_mbps.reaches(threshold)
        },
{
}

/// The monitor checks exactly at the start and after a rest, where it was not asked to stop;
/// and it has not begun exactly before any phase.
pub proof fn lemma_checks(threshold: Rate, ends: Seq<PhaseEnd>)
    ensures
        phase_after(threshold, ends) is Idle <==> ends.len() == 0,
        phase_after(threshold, ends) is Check <==> {
            &&& ends.len() > 0
            &&& !ends.last().stop
            &&& {
                let before = phase_after(threshold, ends.drop_last());
                ||| before is Idle
                ||| before is Sleep
            }
        },
{
}

/// The monitor rests exactly after a healthy check and after a saturation, where it was not
/// asked to stop.
pub proof fn lemma_rests(threshold: Rate, ends: Seq<PhaseEnd>)
    ensures
        phase_after(threshold, ends) is Sleep <==> {
            &&& ends.len() > 0
            &&& !ends.last().stop
            &&& {
                let before = phase_after(threshold, ends.drop_last());
                ||| before is Saturate
                ||| before is Check && ends.last().result.avg_mbps.reaches(threshold)
            }
        },
{
}

/// Once asked to stop the monitor is over, and stays over.
pub proof fn lemma_stop_is_final(threshold: Rate, ends: Seq<PhaseEnd>)
    ensures
        phase_after(threshold, ends) is Stopped <==> exists|i: int|
            0 <= i < ends.len() && (#[trigger] ends[i]).stop,
    decreases ends.len(),
{
    if ends.len() > 0 {
        let front = ends.drop_last();
        lemma_stop_is_final(threshold, front);
        if exists|i: int| 0 <= i < front.len() && (#[trigger] front[i]).stop {
            let i = choose|i: int| 0 <= i < front.len() && (#[trigger] front[i]).stop;
            assert(ends[i].stop);
        }
        if exists|i: int| 0 <= i < ends.len() && (#[trigger] ends[i]).stop {
            let i = choose|i: int| 0 <= i < ends.len() && (#[trigger] ends[i]).stop;
            if i < front.len() {
                assert(front[i].stop);
            }
        }
        assert(ends[ends.len() - 1] == ends.last());
    }
}

/// Until it is asked to stop the monitor goes round: of any three phases in a row one is a
/// check.
pub proof fn lemma_keeps_checking(
    threshold: Rate,
    ends: Seq<PhaseEnd>,
    a: PhaseEnd,
    b: PhaseEnd,
    c: PhaseEnd,
)
    requires
        forall|i: int| 0 <= i < ends.len() ==> !(#[trigger] ends[i]).stop,
        !a.stop,
        !b.stop,
        !c.stop,
    ensures
        phase_after(threshold, ends.push(a)) is Check || phase_after(
            threshold,
            ends.push(a).push(b),
        ) is Check || phase_after(threshold, ends.push(a).push(b).push(c)) is Check,
{
    lemma_stop_is_final(threshold, ends);
    let s1 = ends.push(a);
    let s2 = s1.push(b);
    let s3 = s2.push(c);
    assert(s1.drop_last() =~= ends);
    assert(s2.drop_last() =~= s1);
    assert(s3.drop_last() =~= s2);
}

/// What is reported at each step: that a check begins, at its start; how the check went, at its
/// end; that the speed is back, at the end of a saturation; and at a stop nothing. On Android a
/// hint follows where a rest begins.
pub proof fn lemma_step_lines(
    phase: Phase,
    config: Config,
    end: PhaseEnd,
    shown: Seq<char>,
    android: bool,
)
    ensures
        ({
            let lines = phase.lines(config, end, shown, android);
            let check = "CHECKING: Measuring current speed ("@ + decimal(
                (config.check_duration.nanos / 1_000_000_000) as nat,
            ) + "s sample)..."@;
            let healthy = "OK: Speed is "@ + shown + " Mbps. Sleeping for 1 hour..."@;
            let low = "НИЗКАЯ СКОРОСТЬ: "@ + shown + " Мбит/с. Запускаем непрерывное насыщение..."@;
            let back =
                "ВОССТАНОВЛЕНО: скорость вернулась к норме. Переходим в цикл сна на 1 час."@;
            let good = end.result.avg_mbps.reaches(config.threshold_mbps);
            &&& end.stop || phase is Stopped ==> lines.len() == 0
            &&& !end.stop && (phase is Idle || phase is Sleep) ==> lines == seq![check]
            &&& !end.stop && phase is Check && !good ==> lines == seq![low]
            &&& !end.stop && phase is Check && good ==> lines[0] == healthy && lines.len()
                == if android {
                2nat
            } else {
                1nat
            }
            &&& !end.stop && phase is Saturate ==> lines[0] == back && lines.len() == if android {
                2nat
            } else {
                1nat
            }
            &&& !end.stop && phase is Check && good && android ==> lines[1]
                == "ANDROID: напоминание — через 1 час начнется новая проверка, только если приложение не выгружено из фона."@
            &&& !end.stop && phase is Saturate && android ==> lines[1]
                == "ANDROID: напоминание — если система остановит приложение в фоне, откройте его и нажмите «Запустить»."@
        }),
{
}

/// The source that the speed is measured with is the first one given; where none is, the
/// default source, which then is the only one.
pub proof fn lemma_primary(targets: Seq<Seq<char>>)
    ensures
        targets.len() > 0 ==> primary_of(targets) == targets[0] && or_default(targets) == targets,
        targets.len() == 0 ==> primary_of(targets) == "https://speedtest.selectel.ru/100MB"@
            && or_default(targets) == seq!["https://speedtest.selectel.ru/100MB"@],
{
}

/// The speed is measured with the source that was chosen.
pub proof fn lemma_measures_with_chosen(
    candidates: Seq<Seq<char>>,
    preferred_ok: bool,
    ranked: Seq<Seq<char>>,
)
    ensures
        primary_of(rotation(candidates, preferred_ok, ranked)) == chosen(
            candidates,
            preferred_ok,
            ranked,
        ),
        or_default(rotation(candidates, preferred_ok, ranked)) == rotation(
            candidates,
            preferred_ok,
            ranked,
        ),
{
    lemma_selection(candidates, preferred_ok, ranked);
}

} // verus!
