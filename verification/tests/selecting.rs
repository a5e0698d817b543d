use anti_collision::mode::SelectionMode;
use anti_collision::probe::{plan_throughput_probe, Chunk, Reply};
use anti_collision::ranking::{rank, record, Measured, Reading};
use anti_collision::rate::Rate;
use anti_collision::selection::{select_available_url, Selection, SelectionStep};
use anti_collision::sources::DEFAULT_TEST_URL;
use anti_collision::span::Span;

fn strings(list: &[&str]) -> Vec<String> {
    list.iter().map(|s| s.to_string()).collect()
}

fn fast(url: &str, ms: u128) -> Measured<Span> {
    Measured { url: url.to_string(), score: Span { nanos: ms * 1_000_000 }, shown: ms.to_string() }
}

fn wide(url: &str, mbps: f64) -> Measured<Rate> {
    Measured {
        url: url.to_string(),
        score: Rate { bits: mbps.to_bits() },
        shown: format!("{mbps:.2}"),
    }
}

fn urls<S>(list: &[Measured<S>]) -> Vec<String> {
    list.iter().map(|m| m.url.clone()).collect()
}

#[test]
fn replies_are_judged() {
    assert_eq!(Reply::TimedOut.accept(), Err("тайм-аут".to_string()));
    assert_eq!(Reply::Failed("refused".to_string()).accept(), Err("refused".to_string()));
    assert_eq!(Reply::Status(200).accept(), Ok(()));
    assert_eq!(Reply::Status(206).accept(), Ok(()));
    assert_eq!(Reply::Status(299).accept(), Ok(()));
    assert_eq!(Reply::Status(199).accept(), Err("код HTTP 199 <unknown status code>".to_string()));
    assert_eq!(Reply::Status(300).accept(), Err("код HTTP 300 Multiple Choices".to_string()));
    assert_eq!(Reply::Status(404).accept(), Err("код HTTP 404 Not Found".to_string()));
}

#[test]
fn first_pieces_are_judged() {
    let took = Span { nanos: 1234 };
    assert_eq!(Chunk::TimedOut.latency(took), Err("тайм-аут".to_string()));
    assert_eq!(Chunk::Data(1).latency(took), Ok(took));
    assert_eq!(Chunk::Data(0).latency(took), Ok(took));
    assert_eq!(Chunk::Failed("reset".to_string()).latency(took), Err("reset".to_string()));
    assert_eq!(Chunk::Missing.latency(took), Err("нет данных".to_string()));
}

#[test]
fn throughput_probes() {
    for (asked, given) in [(0, 1), (1, 1), (8, 8), (16, 16), (17, 16), (64, 16)] {
        let probe = plan_throughput_probe("u", asked);
        assert_eq!(probe.config.streams, given);
        assert_eq!(probe.config.rolling_window_secs, 5);
        assert_eq!(f64::from_bits(probe.config.threshold_mbps.bits), 20.0);
        assert_eq!(probe.duration, Span::from_secs(3));
        assert_eq!(probe.targets, strings(&["u"]));
    }
}

#[test]
fn latency_ranks_upwards_and_keeps_ties_in_order() {
    let ranked = rank(vec![fast("a", 30), fast("b", 10), fast("c", 30), fast("d", 10), fast("e", 20)]);
    assert_eq!(urls(&ranked), strings(&["b", "d", "e", "a", "c"]));
    assert!(rank(Vec::<Measured<Span>>::new()).is_empty());
}

#[test]
fn throughput_ranks_downwards_and_keeps_ties_in_order() {
    let ranked = rank(vec![
        wide("a", 1.5),
        wide("b", 100.25),
        wide("c", 0.0),
        wide("d", 100.25),
        wide("e", -0.0),
        wide("f", f64::INFINITY),
    ]);
    assert_eq!(urls(&ranked), strings(&["f", "b", "d", "a", "c", "e"]));
}

#[test]
fn answers_are_recorded() {
    let mut found: Vec<Measured<Span>> = Vec::new();
    let reading = Reading { score: Span { nanos: 12_000_000 }, shown: "12".to_string() };
    let line = record(SelectionMode::Latency, &mut found, "u".to_string(), Ok(reading));
    assert_eq!(line, "  ВЫБОР: u доступен (12 мс)");
    assert_eq!(found.len(), 1);
    assert_eq!((found[0].url.as_str(), found[0].score.nanos), ("u", 12_000_000));

    let line = record(SelectionMode::Latency, &mut found, "v".to_string(), Err("x".to_string()));
    assert_eq!(line, "  ПРЕДУПРЕЖДЕНИЕ: проверка не удалась для v: x");
    assert_eq!(found.len(), 1);

    let mut found: Vec<Measured<Rate>> = Vec::new();
    let reading = Reading { score: Rate::zero(), shown: "0.00".to_string() };
    let line = record(SelectionMode::Throughput, &mut found, "u".to_string(), Ok(reading));
    assert_eq!(line, "  ВЫБОР: u доступен (0.00 Мбит/с)");
    let line = record(SelectionMode::Throughput, &mut found, "v".to_string(), Err("x".to_string()));
    assert_eq!(line, "  ПРЕДУПРЕЖДЕНИЕ: проверка пропускной способности не удалась для v: x");
}

#[test]
fn nothing_to_choose_from() {
    let (_, step, lines) = Selection::start(&[], true, SelectionMode::Latency);
    assert!(lines.is_empty());
    match step {
        SelectionStep::Done(r) => {
            assert_eq!(r.selected, DEFAULT_TEST_URL);
            assert_eq!(r.rotation_targets, strings(&[DEFAULT_TEST_URL]));
        }
        _ => panic!(),
    }
}

#[test]
fn preferred_source_that_answers_is_chosen() {
    let candidates = strings(&["p", "a", "b"]);
    let (mut selection, step, lines) = Selection::start(&candidates, true, SelectionMode::Latency);
    assert_eq!(lines, strings(&["ВЫБОР: проверяем предпочтительный адрес p..."]));
    assert!(matches!(step, SelectionStep::ProbePreferred(ref url) if url == "p"));

    let (step, lines) = selection.preferred_probed(Ok("40".to_string()));
    assert_eq!(
        lines,
        strings(&[
            "ВЫБОР: используем p (40 мс)",
            "ВЫБОР: проверяем 2 адресов с минимальной задержкой...",
        ])
    );
    match step {
        SelectionStep::Survey(pool) => assert_eq!(pool, strings(&["a", "b"])),
        _ => panic!(),
    }

    let (result, lines) = selection.finish(&vec![fast("b", 5), fast("a", 9)]);
    assert_eq!(result.selected, "p");
    assert_eq!(result.rotation_targets, strings(&["p", "b", "a"]));
    assert_eq!(lines, strings(&["ВЫБОР: ротация активна, источников: 3"]));
}

#[test]
fn preferred_source_that_fails_gives_way_to_the_best() {
    let candidates = strings(&["p", "a", "b"]);
    let (mut selection, _, _) = Selection::start(&candidates, true, SelectionMode::Throughput);
    let (_, lines) = selection.preferred_probed(Err("тайм-аут".to_string()));
    assert_eq!(
        lines,
        strings(&[
            "  ПРЕДУПРЕЖДЕНИЕ: предпочтительный адрес недоступен: тайм-аут",
            "ВЫБОР: проверяем 2 адресов с максимальной скоростью...",
        ])
    );
    let (result, lines) = selection.finish(&vec![wide("b", 55.5)]);
    assert_eq!(result.selected, "b");
    assert_eq!(result.rotation_targets, strings(&["b"]));
    assert_eq!(
        lines,
        strings(&[
            "ВЫБОР: используем b (55.50 Мбит/с)",
            "ВЫБОР: доступен только один источник, ротация ограничена.",
        ])
    );
}

#[test]
fn without_an_answer_the_first_candidate_is_chosen() {
    let candidates = strings(&["a", "b"]);
    let (selection, step, lines) = Selection::start(&candidates, false, SelectionMode::Latency);
    assert_eq!(lines, strings(&["ВЫБОР: проверяем 2 адресов с минимальной задержкой..."]));
    assert!(matches!(step, SelectionStep::Survey(ref pool) if *pool == candidates));
    let (result, lines) = selection.finish(&Vec::<Measured<Span>>::new());
    assert_eq!(result.selected, "a");
    assert_eq!(result.rotation_targets, strings(&["a"]));
    assert_eq!(
        lines,
        strings(&[
            "ПРЕДУПРЕЖДЕНИЕ: ни один адрес не доступен, используем первый из списка.",
            "ВЫБОР: доступен только один источник, ротация ограничена.",
        ])
    );
}

#[test]
fn a_single_preferred_candidate_is_surveyed_too() {
    let candidates = strings(&["p"]);
    let (mut selection, _, _) = Selection::start(&candidates, true, SelectionMode::Latency);
    let (step, _) = selection.preferred_probed(Ok("1".to_string()));
    assert!(matches!(step, SelectionStep::Survey(ref pool) if *pool == candidates));
    let (result, _) = selection.finish(&vec![fast("p", 2)]);
    assert_eq!(result.rotation_targets, strings(&["p"]));
}

#[test]
fn no_source_is_rotated_over_twice_and_the_chosen_one_is_first() {
    let candidates = strings(&["a", "b", "c"]);
    let ranked = vec![fast("c", 1), fast("a", 2), fast("c", 3), fast("b", 4), fast("a", 5)];
    let r = select_available_url(&candidates, false, &ranked);
    assert_eq!(r.selected, "c");
    assert_eq!(r.rotation_targets, strings(&["c", "a", "b"]));
    let r = select_available_url(&candidates, true, &ranked);
    assert_eq!(r.selected, "a");
    assert_eq!(r.rotation_targets, strings(&["a", "c", "b"]));
}
