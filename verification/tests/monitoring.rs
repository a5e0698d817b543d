use anti_collision::config::Config;
use anti_collision::messages;
use anti_collision::meter::CycleResult;
use anti_collision::monitor::{
    on_rest, plan_monitor, work_in, Phase, PhaseEnd, RestAction, RestEvent, Work,
};
use anti_collision::panel::Panel;
use anti_collision::rate::Rate;
use anti_collision::sources::DEFAULT_TEST_URL;
use anti_collision::span::Span;

fn strings(list: &[&str]) -> Vec<String> {
    list.iter().map(|s| s.to_string()).collect()
}

fn end(stop: bool, mbps: f64) -> PhaseEnd {
    PhaseEnd { stop, result: CycleResult { avg_mbps: Rate { bits: mbps.to_bits() } } }
}

fn next(phase: Phase, stop: bool, mbps: f64) -> (Phase, Vec<String>) {
    phase.next(&Config::default(), end(stop, mbps), &format!("{mbps:.2}"), false)
}

#[test]
fn a_round_begins_with_a_check() {
    assert_eq!(
        next(Phase::Idle, false, 0.0),
        (Phase::Check, strings(&["CHECKING: Measuring current speed (5s sample)..."]))
    );
    assert_eq!(next(Phase::Sleep, false, 0.0).0, Phase::Check);
}

#[test]
fn a_healthy_speed_is_followed_by_sleep() {
    assert_eq!(
        next(Phase::Check, false, 45.2),
        (Phase::Sleep, strings(&["OK: Speed is 45.20 Mbps. Sleeping for 1 hour..."]))
    );
    assert_eq!(next(Phase::Check, false, 20.0).0, Phase::Sleep);
}

#[test]
fn a_low_speed_is_followed_by_saturation() {
    assert_eq!(
        next(Phase::Check, false, 19.5),
        (
            Phase::Saturate,
            strings(&["НИЗКАЯ СКОРОСТЬ: 19.50 Мбит/с. Запускаем непрерывное насыщение..."])
        )
    );
    assert_eq!(next(Phase::Check, false, f64::NAN).0, Phase::Saturate);
}

#[test]
fn saturation_is_followed_by_sleep() {
    assert_eq!(
        next(Phase::Saturate, false, 1.0),
        (
            Phase::Sleep,
            strings(&[
                "ВОССТАНОВЛЕНО: скорость вернулась к норме. Переходим в цикл сна на 1 час."
            ])
        )
    );
}

#[test]
fn a_stop_is_final() {
    for phase in [Phase::Idle, Phase::Check, Phase::Saturate, Phase::Sleep, Phase::Stopped] {
        assert_eq!(next(phase, true, 100.0), (Phase::Stopped, strings(&[])));
    }
    assert_eq!(next(Phase::Stopped, false, 100.0), (Phase::Stopped, strings(&[])));
}

#[test]
fn android_is_reminded() {
    let config = Config::default();
    let (_, lines) = Phase::Check.next(&config, end(false, 30.0), "30.00", true);
    assert_eq!(
        lines[1],
        "ANDROID: напоминание — через 1 час начнется новая проверка, только если приложение не выгружено из фона."
    );
    let (_, lines) = Phase::Saturate.next(&config, end(false, 30.0), "30.00", true);
    assert_eq!(
        lines[1],
        "ANDROID: напоминание — если система остановит приложение в фоне, откройте его и нажмите «Запустить»."
    );
    let (_, lines) = Phase::Check.next(&config, end(false, 3.0), "3.00", true);
    assert_eq!(lines.len(), 1);
}

#[test]
fn the_monitor_plans_its_sources() {
    let config = Config::default();
    let (plan, lines) = plan_monitor(&strings(&["a", "b"]), &config, "20", false);
    assert_eq!(plan.primary_target, "a");
    assert_eq!(plan.check_targets, strings(&["a"]));
    assert_eq!(plan.saturation_targets, strings(&["a", "b"]));
    assert_eq!(
        lines,
        strings(&[
            "=== Автоматический насыщатор Anti-Collision ===",
            "Порог: 20 Мбит/с",
            "Потоки: 4",
            "Адрес (основной): a",
            "Ротация источников: 2 адресов",
            "Режим: Мониторинг -> [Насыщение] -> Сон 1 час",
            "------------------------------------------",
        ])
    );

    let (plan, lines) = plan_monitor(&[], &config, "20", true);
    assert_eq!(plan.primary_target, DEFAULT_TEST_URL);
    assert_eq!(plan.check_targets, strings(&[DEFAULT_TEST_URL]));
    assert_eq!(plan.saturation_targets, strings(&[DEFAULT_TEST_URL]));
    assert_eq!(lines.len(), 7);
    assert_eq!(
        lines[5],
        "ANDROID: в фоне система может выгрузить приложение. Если через час нет новой проверки — откройте приложение и нажмите «Запустить»."
    );
}

#[test]
fn each_phase_has_its_work() {
    let config = Config::default();
    let (plan, _) = plan_monitor(&strings(&["a", "b"]), &config, "20", false);
    match work_in(Phase::Check, &plan, &config) {
        Work::Download(targets, goal) => {
            assert_eq!(targets, strings(&["a"]));
            assert_eq!(goal, Some(Span::from_secs(5)));
        }
        _ => panic!(),
    }
    match work_in(Phase::Saturate, &plan, &config) {
        Work::Download(targets, goal) => {
            assert_eq!(targets, strings(&["a", "b"]));
            assert_eq!(goal, None);
        }
        _ => panic!(),
    }
    match work_in(Phase::Sleep, &plan, &config) {
        Work::Rest(rest) => assert_eq!(rest, Span::from_secs(3600)),
        _ => panic!(),
    }
    assert!(matches!(work_in(Phase::Stopped, &plan, &config), Work::Quit));
    assert!(matches!(work_in(Phase::Idle, &plan, &config), Work::Quit));
}

#[test]
fn lines_are_stamped() {
    assert_eq!(
        messages::stamped("2024-01-31 12:00:00", "CHECKING: Measuring current speed (5s sample)..."),
        "[2024-01-31 12:00:00] CHECKING: Measuring current speed (5s sample)..."
    );
}

#[test]
fn the_current_speed_stands_without_a_stamp() {
    let stamp = "2024-01-31 12:00:00";
    let line = messages::current_speed("45.20");
    assert_eq!(messages::log_line(stamp, &line), "  Current: 45.20 Mbps");
    let line = messages::checking(5);
    assert_eq!(
        messages::log_line(stamp, &line),
        "[2024-01-31 12:00:00] CHECKING: Measuring current speed (5s sample)..."
    );
    let line = messages::healthy("45.20");
    assert_eq!(
        messages::log_line("2024-01-31 12:00:05", &line),
        "[2024-01-31 12:00:05] OK: Speed is 45.20 Mbps. Sleeping for 1 hour..."
    );
    assert_eq!(messages::log_line("t", "  Cur"), "[t]   Cur");
    assert_eq!(messages::log_line("t", ""), "[t] ");
}

#[test]
fn only_a_stop_cuts_a_rest_short() {
    assert_eq!(on_rest(RestEvent::TimeUp), RestAction::End);
    assert_eq!(on_rest(RestEvent::Flag(true)), RestAction::End);
    assert_eq!(on_rest(RestEvent::Flag(false)), RestAction::GoOn);
    assert_eq!(on_rest(RestEvent::Closed(true)), RestAction::End);
    assert_eq!(on_rest(RestEvent::Closed(false)), RestAction::SitOut);
}

#[test]
fn setup_errors_are_worded() {
    assert_eq!(messages::no_runtime("x"), "ОШИБКА: не удалось создать Tokio runtime: x");
    assert_eq!(messages::no_client("x"), "ОШИБКА: не удалось создать HTTP-клиент: x");
    assert_eq!(
        messages::measuring_throughput("u"),
        "  ВЫБОР: проверяем пропускную способность u (3 c)..."
    );
}

#[test]
fn the_window_starts_once_and_stops() {
    let mut panel = Panel::new();
    assert_eq!((panel.status_text(), panel.status_class()), ("Остановлено", "status-pill is-stopped"));
    assert!(panel.start(false));
    assert_eq!((panel.status_text(), panel.status_class()), ("Работает", "status-pill is-running"));
    panel.append("x".to_string());
    assert!(!panel.start(false));
    let lines: Vec<String> = panel.lines.iter().cloned().collect();
    assert_eq!(lines, strings(&["[интерфейс] запуск...", "x"]));
    panel.stop();
    assert!(!panel.running);
    assert_eq!(panel.lines.back().unwrap(), "[интерфейс] запрошена остановка");
    assert!(panel.start(true));
    let lines: Vec<String> = panel.lines.iter().cloned().collect();
    assert_eq!(
        lines,
        strings(&[
            "[интерфейс] запуск...",
            "[интерфейс] android: если приложение выгружено из фона, откройте его и нажмите «Запустить».",
        ])
    );
}

#[test]
fn each_worker_is_told_to_stop_once() {
    let mut panel = Panel::new();
    assert!(!panel.stop());
    let mut started = 0;
    let mut told: Vec<i32> = Vec::new();
    for start in [true, true, false, false, true, false, true, true] {
        if start {
            if panel.start(false) {
                started += 1;
            }
        } else if panel.stop() {
            told.push(started - 1);
        }
    }
    assert_eq!(started, 3);
    assert_eq!(told, vec![0, 1]);
    assert!(panel.running);
}

#[test]
fn the_log_keeps_the_last_lines() {
    let mut panel = Panel::new();
    assert!(panel.start(false));
    for i in 0..620 {
        panel.append(i.to_string());
    }
    assert_eq!(panel.lines.len(), 500);
    assert_eq!(panel.lines.front().unwrap(), "120");
    assert_eq!(panel.lines.back().unwrap(), "619");
    panel.stop();
    assert_eq!(panel.lines.len(), 501);
}
