use anti_collision::config::Config;
use anti_collision::meter::{on_stop, CycleResult, Meter, Tick, Verdict};
use anti_collision::rate::Rate;
use anti_collision::requests::with_cache_buster;
use anti_collision::sources::DEFAULT_TEST_URL;
use anti_collision::span::Span;
use anti_collision::worker::{
    on_body, plan_download, BodyAction, BodyEvent, Reaction, Worker,
};

fn strings(list: &[&str]) -> Vec<String> {
    list.iter().map(|s| s.to_string()).collect()
}

fn rate(x: f64) -> Rate {
    Rate { bits: x.to_bits() }
}

fn ms(n: u128) -> Span {
    Span { nanos: n * 1_000_000 }
}

fn tick(elapsed: Span, since_start: Span, last: f64) -> Tick {
    Tick {
        elapsed,
        since_start,
        last_mbps: rate(last),
        shown: format!("{last:.2}"),
    }
}

#[test]
fn addresses_carry_worker_and_number() {
    assert_eq!(with_cache_buster("http://h/f", 0, 0), "http://h/f?ac_worker=0&ac_seq=0");
    assert_eq!(with_cache_buster("http://h/f?x=1", 12, 345), "http://h/f?x=1&ac_worker=12&ac_seq=345");
    assert_eq!(
        with_cache_buster("", usize::MAX, u64::MAX),
        format!("?ac_worker={}&ac_seq={}", usize::MAX, u64::MAX)
    );
}

#[test]
fn addresses_differ() {
    let mut seen: Vec<String> = Vec::new();
    for url in ["a", "a?", "a?ac_worker=1&ac_seq=1", "b"] {
        for worker in [0, 1, 11] {
            for seq in [0, 1, 11, 111] {
                let address = with_cache_buster(url, worker, seq);
                assert!(!seen.contains(&address), "{address}");
                seen.push(address);
            }
        }
    }
}

#[test]
fn sources_of_a_download() {
    let (targets, line) = plan_download(&[]);
    assert_eq!(targets, strings(&[DEFAULT_TEST_URL]));
    assert_eq!(line, None);
    let (targets, line) = plan_download(&strings(&["a"]));
    assert_eq!(targets, strings(&["a"]));
    assert_eq!(line, None);
    let (targets, line) = plan_download(&strings(&["a", "b", "c"]));
    assert_eq!(targets, strings(&["a", "b", "c"]));
    assert_eq!(line, Some("  РОТАЦИЯ: используем 3 источников загрузки.".to_string()));
}

#[test]
fn workers_take_turns_over_the_sources() {
    let targets = strings(&["a", "b", "c"]);
    let mut worker = Worker::new(4, 3);
    let mut asked = Vec::new();
    for seq in 0..6 {
        let request = worker.next_request(&targets);
        assert_eq!(request.url, format!("{}?ac_worker=4&ac_seq={seq}", request.base_url));
        asked.push(request.base_url);
    }
    assert_eq!(asked, strings(&["b", "c", "a", "b", "c", "a"]));
}

#[test]
fn request_numbers_wrap() {
    let mut worker = Worker { request_seq: u64::MAX, ..Worker::new(0, 1) };
    let request = worker.next_request(&strings(&["a"]));
    assert_eq!(request.url, format!("a?ac_worker=0&ac_seq={}", u64::MAX));
    assert_eq!(worker.next_request(&strings(&["a"])).url, "a?ac_worker=0&ac_seq=0");
}

#[test]
fn failures_are_reported_by_the_first_worker_and_not_too_often() {
    let mut worker = Worker::new(0, 1);
    let (reaction, line) = worker.on_response("u", 503, ms(10));
    assert_eq!(reaction, Reaction::Pause(Span::from_secs(2)));
    assert_eq!(
        line,
        Some("  ПРЕДУПРЕЖДЕНИЕ: сервер u вернул HTTP 503 Service Unavailable".to_string())
    );
    let (reaction, line) = worker.on_error("u", "reset", ms(5_009));
    assert_eq!(reaction, Reaction::Pause(Span::from_secs(1)));
    assert_eq!(line, None);
    let (_, line) = worker.on_error("u", "reset", ms(5_010));
    assert_eq!(
        line,
        Some("  ПРЕДУПРЕЖДЕНИЕ: запрос к u завершился ошибкой: reset".to_string())
    );
    let (_, line) = worker.on_response("u", 500, ms(10_009));
    assert_eq!(line, None);

    let mut worker = Worker::new(1, 1);
    assert_eq!(worker.on_error("u", "reset", ms(1)).1, None);
    assert_eq!(worker.on_response("u", 404, ms(60_000)).1, None);
}

#[test]
fn a_success_is_read() {
    let mut worker = Worker::new(0, 1);
    assert_eq!(worker.on_response("u", 200, ms(1)), (Reaction::Read, None));
    assert_eq!(worker.on_response("u", 301, ms(1)).0, Reaction::Pause(Span::from_secs(2)));
}

#[test]
fn bodies_are_counted() {
    assert_eq!(on_body(BodyEvent::Data(7)), BodyAction::Count(7));
    assert_eq!(on_body(BodyEvent::Failed), BodyAction::NextRequest);
    assert_eq!(on_body(BodyEvent::End), BodyAction::NextRequest);
    assert_eq!(on_body(BodyEvent::Closed), BodyAction::Quit);
}

#[test]
fn a_check_ends_when_its_time_is_over() {
    let mut meter = Meter::new(&Config::default(), Some(Span::from_secs(5)));
    meter.receive(1000);
    meter.receive(24);
    assert_eq!((meter.window_bytes, meter.total_bytes), (1024, 1024));
    let (verdict, lines) = meter.tick(&tick(ms(4_999), ms(4_999), 50.0));
    assert_eq!(verdict, Verdict::Continue);
    assert_eq!(lines, strings(&["  Current: 50.00 Mbps"]));
    assert_eq!((meter.window_bytes, meter.total_bytes), (0, 1024));
    meter.receive(1);
    let (verdict, lines) = meter.tick(&tick(ms(1), ms(5_000), 45.2));
    assert_eq!(verdict, Verdict::CheckDone(1025));
    assert_eq!(lines, strings(&["  Current: 45.20 Mbps"]));
}

#[test]
fn a_report_without_time_is_no_sample() {
    let mut meter = Meter::new(&Config::default(), Some(Span::from_secs(0)));
    meter.receive(5);
    let (verdict, lines) = meter.tick(&tick(ms(0), ms(9_000), 1.0));
    assert_eq!(verdict, Verdict::Continue);
    assert!(lines.is_empty());
    assert_eq!((meter.window_bytes, meter.total_bytes, meter.samples.len()), (0, 5, 0));
}

#[test]
fn saturation_ends_after_fifteen_good_seconds_on_end() {
    let mut meter = Meter::new(&Config::default(), None);
    let mut run = |seconds: u32, speed: f64| {
        let mut verdict = Verdict::Continue;
        for _ in 0..seconds {
            meter.receive(1);
            verdict = meter.tick(&tick(ms(1_000), ms(0), speed)).0;
            if verdict != Verdict::Continue {
                break;
            }
        }
        verdict
    };
    assert_eq!(run(14, 33.0), Verdict::Continue);
    assert_eq!(run(1, 19.999999999999996), Verdict::Continue);
    assert_eq!(run(14, 33.0), Verdict::Continue);
    assert_eq!(
        run(1, 20.000000000000004),
        Verdict::Recovered(CycleResult { avg_mbps: rate(20.000000000000004) })
    );
}

#[test]
fn a_speed_at_the_threshold_is_not_above_it() {
    let mut meter = Meter::new(&Config::default(), None);
    meter.receive(1);
    assert_eq!(meter.tick(&tick(ms(60_000), ms(0), 20.0)).0, Verdict::Continue);
    assert_eq!(meter.good_elapsed, ms(0));
}

#[test]
fn a_slow_report_starts_the_count_anew_however_fast_the_others_were() {
    let mut meter = Meter::new(&Config::default(), None);
    for speed in [100.0, 100.0, 0.0] {
        assert_eq!(meter.tick(&tick(ms(5_000), ms(0), speed)).0, Verdict::Continue);
    }
    assert_eq!(meter.good_elapsed, ms(0));
    for speed in [100.0, 100.0] {
        assert_eq!(meter.tick(&tick(ms(5_000), ms(0), speed)).0, Verdict::Continue);
    }
    assert_eq!(
        meter.tick(&tick(ms(5_000), ms(0), 100.0)).0,
        Verdict::Recovered(CycleResult { avg_mbps: rate(100.0) })
    );
}

#[test]
fn a_stop_wins_over_a_reached_goal() {
    let mut meter = Meter::new(&Config::default(), Some(Span::from_secs(1)));
    meter.receive(5_000_000);
    let due = tick(ms(1_000), ms(1_000), 40.0);
    let (verdict, lines) = meter.report(true, &due);
    assert_eq!(verdict, Verdict::Stopped(CycleResult { avg_mbps: rate(0.0) }));
    assert!(lines.is_empty());
    assert_eq!((meter.window_bytes, meter.total_bytes, meter.samples.len()), (5_000_000, 5_000_000, 0));
    let (verdict, lines) = meter.report(false, &due);
    assert_eq!(verdict, Verdict::CheckDone(5_000_000));
    assert_eq!(lines, strings(&["  Current: 40.00 Mbps"]));
}

#[test]
fn recovery_is_reported() {
    let mut meter = Meter::new(&Config::default(), None);
    meter.receive(1);
    let (verdict, lines) = meter.tick(&tick(ms(15_000), ms(15_000), 61.0));
    assert_eq!(verdict, Verdict::Recovered(CycleResult { avg_mbps: rate(61.0) }));
    assert_eq!(
        lines,
        strings(&["  Current: 61.00 Mbps", "  Скорость восстановилась до 61.00 Мбит/с."])
    );
}

#[test]
fn what_is_not_a_number_is_never_good() {
    let mut meter = Meter::new(&Config::default(), None);
    meter.receive(1);
    let (verdict, _) = meter.tick(&tick(ms(60_000), ms(60_000), f64::NAN));
    assert_eq!(verdict, Verdict::Continue);
    assert_eq!(meter.good_elapsed, ms(0));
}

#[test]
fn the_average_is_over_the_last_samples() {
    let mut meter = Meter::new(&Config::default(), None);
    for i in 0..7_u32 {
        meter.receive(1);
        let last = f64::from(i);
        let window = meter.averaged_with(rate(last));
        let first = i.saturating_sub(4);
        let expected: Vec<Rate> = (first..=i).map(|k| rate(f64::from(k))).collect();
        assert_eq!(window, expected);
        meter.tick(&tick(ms(1_000), ms(0), last));
        assert_eq!(meter.samples.iter().copied().collect::<Vec<_>>(), expected);
    }
}

#[test]
fn without_a_window_the_average_is_the_last_speed() {
    let config = Config { rolling_window_secs: 0, ..Config::default() };
    let mut meter = Meter::new(&config, None);
    assert_eq!(meter.averaged_with(rate(3.0)), vec![rate(3.0)]);
    meter.tick(&tick(ms(1_000), ms(0), 3.0));
    assert_eq!(meter.samples.len(), 0);
    assert_eq!(meter.averaged_with(rate(4.0)), vec![rate(4.0)]);
}

#[test]
fn silence_is_reported_once_until_data_comes() {
    let warning =
        "  ПРЕДУПРЕЖДЕНИЕ: пока нет данных; адрес может быть заблокирован или недоступен.";
    let mut meter = Meter::new(&Config::default(), None);
    let mut warned = |bytes: usize| {
        meter.receive(bytes);
        let (_, lines) = meter.tick(&tick(ms(1_000), ms(0), 0.0));
        lines.contains(&warning.to_string())
    };
    let seen: Vec<bool> =
        [0, 0, 0, 0, 0, 9, 0, 0, 0].iter().map(|bytes| warned(*bytes)).collect();
    assert_eq!(seen, vec![false, false, true, false, false, false, false, false, true]);
}

#[test]
fn a_stopped_download_comes_to_nothing() {
    assert_eq!(on_stop(true), Some(CycleResult { avg_mbps: rate(0.0) }));
    assert_eq!(on_stop(false), None);
}
