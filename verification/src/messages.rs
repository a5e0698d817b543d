//! The lines that the library reports, in the words that users read.

use vstd::prelude::*;

use crate::mode::SelectionMode;
use crate::text::begins_with;
use crate::text::decimal;
use crate::text::decimal_text;

verus! {

/// The unit of what is measured in `mode`.
pub open spec fn unit_text(mode: SelectionMode) -> Seq<char> {
    match mode {
        SelectionMode::Latency => "мс"@,
        SelectionMode::Throughput => "Мбит/с"@,
    }
}

/// The unit of what is measured in `mode`.
pub fn unit(mode: SelectionMode) -> (r: &'static str)
    ensures
        r@ == unit_text(mode),
        mode == SelectionMode::Latency ==> r@ == "мс"@,
        mode == SelectionMode::Throughput ==> r@ == "Мбит/с"@,
{
    match mode {
        SelectionMode::Latency => "мс",
        SelectionMode::Throughput => "Мбит/с",
    }
}

/// What is looked for in `mode`.
pub open spec fn aim_text(mode: SelectionMode) -> Seq<char> {
    match mode {
        SelectionMode::Latency => "минимальной задержкой"@,
        SelectionMode::Throughput => "максимальной скоростью"@,
    }
}

/// What is looked for in `mode`.
pub fn aim(mode: SelectionMode) -> (r: &'static str)
    ensures
        r@ == aim_text(mode),
        mode == SelectionMode::Latency ==> r@ == "минимальной задержкой"@,
        mode == SelectionMode::Throughput ==> r@ == "максимальной скоростью"@,
{
    match mode {
        SelectionMode::Latency => "минимальной задержкой",
        SelectionMode::Throughput => "максимальной скоростью",
    }
}

/// What a probe in `mode` is called.
pub open spec fn subject_text(mode: SelectionMode) -> Seq<char> {
    match mode {
        SelectionMode::Latency => "проверка"@,
        SelectionMode::Throughput => "проверка пропускной способности"@,
    }
}

/// What a probe in `mode` is called.
pub fn subject(mode: SelectionMode) -> (r: &'static str)
    ensures
        r@ == subject_text(mode),
        mode == SelectionMode::Latency ==> r@ == "проверка"@,
        mode == SelectionMode::Throughput ==> r@ == "проверка пропускной способности"@,
{
    match mode {
        SelectionMode::Latency => "проверка",
        SelectionMode::Throughput => "проверка пропускной способности",
    }
}

// Choosing a source.

/// The preferred source is about to be probed.
pub open spec fn trying_preferred_text(url: Seq<char>) -> Seq<char> {
    "ВЫБОР: проверяем предпочтительный адрес "@ + url + "..."@
}

/// The preferred source is about to be probed.
pub fn trying_preferred(url: &str) -> (r: String)
    ensures
        r@ == trying_preferred_text(url@),
        r@ == "ВЫБОР: проверяем предпочтительный адрес "@ + url@ + "..."@,
{
    let mut r = "ВЫБОР: проверяем предпочтительный адрес ".to_string();
    r.append(url);
    r.append("...");
    r
}

/// The preferred source did not answer.
pub open spec fn preferred_unavailable_text(err: Seq<char>) -> Seq<char> {
    "  ПРЕДУПРЕЖДЕНИЕ: предпочтительный адрес недоступен: "@ + err
}

/// The preferred source did not answer.
pub fn preferred_unavailable(err: &str) -> (r: String)
    ensures
        r@ == preferred_unavailable_text(err@),
        r@ == "  ПРЕДУПРЕЖДЕНИЕ: предпочтительный адрес недоступен: "@ + err@,
{
    let mut r = "  ПРЕДУПРЕЖДЕНИЕ: предпочтительный адрес недоступен: ".to_string();
    r.append(err);
    r
}

/// `count` sources are about to be probed.
pub open spec fn surveying_text(mode: SelectionMode, count: nat) -> Seq<char> {
    "ВЫБОР: проверяем "@ + decimal(count) + " адресов с "@ + aim_text(mode) + "..."@
}

/// `count` sources are about to be probed.
pub fn surveying(mode: SelectionMode, count: usize) -> (r: String)
    ensures
        r@ == surveying_text(mode, count as nat),
        r@ == "ВЫБОР: проверяем "@ + decimal(count as nat) + " адресов с "@ + aim_text(mode) + "..."@,
{
    let mut r = "ВЫБОР: проверяем ".to_string();
    r.append(decimal_text(count as u128).as_str());
    r.append(" адресов с ");
    r.append(aim(mode));
    r.append("...");
    r
}

/// The throughput of one source is about to be measured.
pub open spec fn measuring_throughput_text(url: Seq<char>) -> Seq<char> {
    "  ВЫБОР: проверяем пропускную способность "@ + url + " (3 c)..."@
}

/// The throughput of one source is about to be measured.
pub fn measuring_throughput(url: &str) -> (r: String)
    ensures
        r@ == measuring_throughput_text(url@),
        r@ == "  ВЫБОР: проверяем пропускную способность "@ + url@ + " (3 c)..."@,
{
    let mut r = "  ВЫБОР: проверяем пропускную способность ".to_string();
    r.append(url);
    r.append(" (3 c)...");
    r
}

/// A source answered; `shown` is what was measured.
pub open spec fn available_text(mode: SelectionMode, url: Seq<char>, shown: Seq<char>) -> Seq<char> {
    "  ВЫБОР: "@ + url + " доступен ("@ + shown + " "@ + unit_text(mode) + ")"@
}

/// A source answered; `shown` is what was measured.
pub fn available(mode: SelectionMode, url: &str, shown: &str) -> (r: String)
    ensures
        r@ == available_text(mode, url@, shown@),
        r@ == "  ВЫБОР: "@ + url@ + " доступен ("@ + shown@ + " "@ + unit_text(mode) + ")"@,
{
    let mut r = "  ВЫБОР: ".to_string();
    r.append(url);
    r.append(" доступен (");
    r.append(shown);
    r.append(" ");
    r.append(unit(mode));
    r.append(")");
    r
}

/// A source did not answer.
pub open spec fn unavailable_text(mode: SelectionMode, url: Seq<char>, err: Seq<char>) -> Seq<char> {
    "  ПРЕДУПРЕЖДЕНИЕ: "@ + subject_text(mode) + " не удалась для "@ + url + ": "@ + err
}

/// A source did not answer.
pub fn unavailable(mode: SelectionMode, url: &str, err: &str) -> (r: String)
    ensures
        r@ == unavailable_text(mode, url@, err@),
        r@ == "  ПРЕДУПРЕЖДЕНИЕ: "@ + subject_text(mode) + " не удалась для "@ + url@ + ": "@ + err@,
{
    let mut r = "  ПРЕДУПРЕЖДЕНИЕ: ".to_string();
    r.append(subject(mode));
    r.append(" не удалась для ");
    r.append(url);
    r.append(": ");
    r.append(err);
    r
}

/// The source that was chosen; `shown` is what was measured.
pub open spec fn using_text(mode: SelectionMode, url: Seq<char>, shown: Seq<char>) -> Seq<char> {
    "ВЫБОР: используем "@ + url + " ("@ + shown + " "@ + unit_text(mode) + ")"@
}

/// The source that was chosen; `shown` is what was measured.
pub fn using(mode: SelectionMode, url: &str, shown: &str) -> (r: String)
    ensures
        r@ == using_text(mode, url@, shown@),
        r@ == "ВЫБОР: используем "@ + url@ + " ("@ + shown@ + " "@ + unit_text(mode) + ")"@,
{
    let mut r = "ВЫБОР: используем ".to_string();
    r.append(url);
    r.append(" (");
    r.append(shown);
    r.append(" ");
    r.append(unit(mode));
    r.append(")");
    r
}

/// No source answered.
pub open spec fn none_available_text() -> Seq<char> {
    "ПРЕДУПРЕЖДЕНИЕ: ни один адрес не доступен, используем первый из списка."@
}

/// No source answered.
pub fn none_available() -> (r: String)
    ensures
        r@ == none_available_text(),
        r@ == "ПРЕДУПРЕЖДЕНИЕ: ни один адрес не доступен, используем первый из списка."@,
{
    "ПРЕДУПРЕЖДЕНИЕ: ни один адрес не доступен, используем первый из списка.".to_string()
}

/// There are `count` sources to rotate over.
pub open spec fn rotation_active_text(count: nat) -> Seq<char> {
    "ВЫБОР: ротация активна, источников: "@ + decimal(count)
}

/// There are `count` sources to rotate over.
pub fn rotation_active(count: usize) -> (r: String)
    ensures
        r@ == rotation_active_text(count as nat),
        r@ == "ВЫБОР: ротация активна, источников: "@ + decimal(count as nat),
{
    let mut r = "ВЫБОР: ротация активна, источников: ".to_string();
    r.append(decimal_text(count as u128).as_str());
    r
}

/// There is one source only.
pub open spec fn rotation_limited_text() -> Seq<char> {
    "ВЫБОР: доступен только один источник, ротация ограничена."@
}

/// There is one source only.
pub fn rotation_limited() -> (r: String)
    ensures
        r@ == rotation_limited_text(),
        r@ == "ВЫБОР: доступен только один источник, ротация ограничена."@,
{
    "ВЫБОР: доступен только один источник, ротация ограничена.".to_string()
}

// Probing a source.

/// A probe took too long.
pub open spec fn timed_out_text() -> Seq<char> {
    "тайм-аут"@
}

/// A probe took too long.
pub fn timed_out() -> (r: String)
    ensures
        r@ == timed_out_text(),
        r@ == "тайм-аут"@,
{
    "тайм-аут".to_string()
}

/// A probe was answered without data.
pub open spec fn no_data_text() -> Seq<char> {
    "нет данных"@
}

/// A probe was answered without data.
pub fn no_data() -> (r: String)
    ensures
        r@ == no_data_text(),
        r@ == "нет данных"@,
{
    "нет данных".to_string()
}

/// A probe was answered with a status that is no success.
pub open spec fn http_code_text(status: Seq<char>) -> Seq<char> {
    "код HTTP "@ + status
}

/// A probe was answered with a status that is no success.
pub fn http_code(status: &str) -> (r: String)
    ensures
        r@ == http_code_text(status@),
        r@ == "код HTTP "@ + status@,
{
    let mut r = "код HTTP ".to_string();
    r.append(status);
    r
}

// Downloading.

/// `count` sources are downloaded from in turn.
pub open spec fn rotating_text(count: nat) -> Seq<char> {
    "  РОТАЦИЯ: используем "@ + decimal(count) + " источников загрузки."@
}

/// `count` sources are downloaded from in turn.
pub fn rotating(count: usize) -> (r: String)
    ensures
        r@ == rotating_text(count as nat),
        r@ == "  РОТАЦИЯ: используем "@ + decimal(count as nat) + " источников загрузки."@,
{
    let mut r = "  РОТАЦИЯ: используем ".to_string();
    r.append(decimal_text(count as u128).as_str());
    r.append(" источников загрузки.");
    r
}

/// A source answered a download with a status that is no success.
pub open spec fn bad_status_text(url: Seq<char>, status: Seq<char>) -> Seq<char> {
    "  ПРЕДУПРЕЖДЕНИЕ: сервер "@ + url + " вернул HTTP "@ + status
}

/// A source answered a download with a status that is no success.
pub fn bad_status(url: &str, status: &str) -> (r: String)
    ensures
        r@ == bad_status_text(url@, status@),
        r@ == "  ПРЕДУПРЕЖДЕНИЕ: сервер "@ + url@ + " вернул HTTP "@ + status@,
{
    let mut r = "  ПРЕДУПРЕЖДЕНИЕ: сервер ".to_string();
    r.append(url);
    r.append(" вернул HTTP ");
    r.append(status);
    r
}

/// A download could not be requested.
pub open spec fn request_failed_text(url: Seq<char>, err: Seq<char>) -> Seq<char> {
    "  ПРЕДУПРЕЖДЕНИЕ: запрос к "@ + url + " завершился ошибкой: "@ + err
}

/// A download could not be requested.
pub fn request_failed(url: &str, err: &str) -> (r: String)
    ensures
        r@ == request_failed_text(url@, err@),
        r@ == "  ПРЕДУПРЕЖДЕНИЕ: запрос к "@ + url@ + " завершился ошибкой: "@ + err@,
{
    let mut r = "  ПРЕДУПРЕЖДЕНИЕ: запрос к ".to_string();
    r.append(url);
    r.append(" завершился ошибкой: ");
    r.append(err);
    r
}

/// The speed since the last report.
pub open spec fn current_speed_text(shown: Seq<char>) -> Seq<char> {
    "  Current: "@ + shown + " Mbps"@
}

/// The speed since the last report.
pub fn current_speed(shown: &str) -> (r: String)
    ensures
        r@ == current_speed_text(shown@),
        r@ == "  Current: "@ + shown@ + " Mbps"@,
{
    let mut r = "  Current: ".to_string();
    r.append(shown);
    r.append(" Mbps");
    r
}

/// Nothing has come in for a while.
pub open spec fn no_data_yet_text() -> Seq<char> {
    "  ПРЕДУПРЕЖДЕНИЕ: пока нет данных; адрес может быть заблокирован или недоступен."@
}

/// Nothing has come in for a while.
pub fn no_data_yet() -> (r: String)
    ensures
        r@ == no_data_yet_text(),
        r@ == "  ПРЕДУПРЕЖДЕНИЕ: пока нет данных; адрес может быть заблокирован или недоступен."@,
{
    "  ПРЕДУПРЕЖДЕНИЕ: пока нет данных; адрес может быть заблокирован или недоступен.".to_string()
}

/// The speed is back.
pub open spec fn recovered_text(shown: Seq<char>) -> Seq<char> {
    "  Скорость восстановилась до "@ + shown + " Мбит/с."@
}

/// The speed is back.
pub fn recovered(shown: &str) -> (r: String)
    ensures
        r@ == recovered_text(shown@),
        r@ == "  Скорость восстановилась до "@ + shown@ + " Мбит/с."@,
{
    let mut r = "  Скорость восстановилась до ".to_string();
    r.append(shown);
    r.append(" Мбит/с.");
    r
}

// Monitoring.

/// The headline.
pub open spec fn title_text() -> Seq<char> {
    "=== Автоматический насыщатор Anti-Collision ==="@
}

/// The headline.
pub fn title() -> (r: String)
    ensures
        r@ == title_text(),
        r@ == "=== Автоматический насыщатор Anti-Collision ==="@,
{
    "=== Автоматический насыщатор Anti-Collision ===".to_string()
}

/// The threshold in use.
pub open spec fn threshold_text(shown: Seq<char>) -> Seq<char> {
    "Порог: "@ + shown + " Мбит/с"@
}

/// The threshold in use.
pub fn threshold(shown: &str) -> (r: String)
    ensures
        r@ == threshold_text(shown@),
        r@ == "Порог: "@ + shown@ + " Мбит/с"@,
{
    let mut r = "Порог: ".to_string();
    r.append(shown);
    r.append(" Мбит/с");
    r
}

/// The number of parallel downloads.
pub open spec fn streams_text(count: nat) -> Seq<char> {
    "Потоки: "@ + decimal(count)
}

/// The number of parallel downloads.
pub fn streams(count: usize) -> (r: String)
    ensures
        r@ == streams_text(count as nat),
        r@ == "Потоки: "@ + decimal(count as nat),
{
    let mut r = "Потоки: ".to_string();
    r.append(decimal_text(count as u128).as_str());
    r
}

/// The source that the speed is measured with.
pub open spec fn primary_text(url: Seq<char>) -> Seq<char> {
    "Адрес (основной): "@ + url
}

/// The source that the speed is measured with.
pub fn primary(url: &str) -> (r: String)
    ensures
        r@ == primary_text(url@),
        r@ == "Адрес (основной): "@ + url@,
{
    let mut r = "Адрес (основной): ".to_string();
    r.append(url);
    r
}

/// The number of sources to rotate over.
pub open spec fn rotation_text(count: nat) -> Seq<char> {
    "Ротация источников: "@ + decimal(count) + " адресов"@
}

/// The number of sources to rotate over.
pub fn rotation(count: usize) -> (r: String)
    ensures
        r@ == rotation_text(count as nat),
        r@ == "Ротация источников: "@ + decimal(count as nat) + " адресов"@,
{
    let mut r = "Ротация источников: ".to_string();
    r.append(decimal_text(count as u128).as_str());
    r.append(" адресов");
    r
}

/// What one round does.
pub open spec fn cycle_text() -> Seq<char> {
    "Режим: Мониторинг -> [Насыщение] -> Сон 1 час"@
}

/// What one round does.
pub fn cycle() -> (r: String)
    ensures
        r@ == cycle_text(),
        r@ == "Режим: Мониторинг -> [Насыщение] -> Сон 1 час"@,
{
    "Режим: Мониторинг -> [Насыщение] -> Сон 1 час".to_string()
}

/// What to do on Android where no check comes.
pub open spec fn android_background_text() -> Seq<char> {
    "ANDROID: в фоне система может выгрузить приложение. Если через час нет новой проверки — откройте приложение и нажмите «Запустить»."@
}

/// What to do on Android where no check comes.
pub fn android_background() -> (r: String)
    ensures
        r@ == android_background_text(),
        r@ == "ANDROID: в фоне система может выгрузить приложение. Если через час нет новой проверки — откройте приложение и нажмите «Запустить»."@,
{
    "ANDROID: в фоне система может выгрузить приложение. Если через час нет новой проверки — откройте приложение и нажмите «Запустить».".to_string()
}

/// The line below the headline.
pub open spec fn rule_text() -> Seq<char> {
    "------------------------------------------"@
}

/// The line below the headline.
pub fn rule() -> (r: String)
    ensures
        r@ == rule_text(),
        r@ == "------------------------------------------"@,
{
    "------------------------------------------".to_string()
}

/// A check of `secs` seconds begins.
pub open spec fn checking_text(secs: nat) -> Seq<char> {
    "CHECKING: Measuring current speed ("@ + decimal(secs) + "s sample)..."@
}

/// A check of `secs` seconds begins.
pub fn checking(secs: u128) -> (r: String)
    ensures
        r@ == checking_text(secs as nat),
        r@ == "CHECKING: Measuring current speed ("@ + decimal(secs as nat) + "s sample)..."@,
{
    let mut r = "CHECKING: Measuring current speed (".to_string();
    r.append(decimal_text(secs).as_str());
    r.append("s sample)...");
    r
}

/// The speed is good enough.
pub open spec fn healthy_text(shown: Seq<char>) -> Seq<char> {
    "OK: Speed is "@ + shown + " Mbps. Sleeping for 1 hour..."@
}

/// The speed is good enough.
pub fn healthy(shown: &str) -> (r: String)
    ensures
        r@ == healthy_text(shown@),
        r@ == "OK: Speed is "@ + shown@ + " Mbps. Sleeping for 1 hour..."@,
{
    let mut r = "OK: Speed is ".to_string();
    r.append(shown);
    r.append(" Mbps. Sleeping for 1 hour...");
    r
}

/// What to mind on Android before the sleep that follows a good check.
pub open spec fn android_healthy_text() -> Seq<char> {
    "ANDROID: напоминание — через 1 час начнется новая проверка, только если приложение не выгружено из фона."@
}

/// What to mind on Android before the sleep that follows a good check.
pub fn android_healthy() -> (r: String)
    ensures
        r@ == android_healthy_text(),
        r@ == "ANDROID: напоминание — через 1 час начнется новая проверка, только если приложение не выгружено из фона."@,
{
    "ANDROID: напоминание — через 1 час начнется новая проверка, только если приложение не выгружено из фона.".to_string()
}

/// The speed is too low.
pub open spec fn degraded_text(shown: Seq<char>) -> Seq<char> {
    "НИЗКАЯ СКОРОСТЬ: "@ + shown + " Мбит/с. Запускаем непрерывное насыщение..."@
}

/// The speed is too low.
pub fn degraded(shown: &str) -> (r: String)
    ensures
        r@ == degraded_text(shown@),
        r@ == "НИЗКАЯ СКОРОСТЬ: "@ + shown@ + " Мбит/с. Запускаем непрерывное насыщение..."@,
{
    let mut r = "НИЗКАЯ СКОРОСТЬ: ".to_string();
    r.append(shown);
    r.append(" Мбит/с. Запускаем непрерывное насыщение...");
    r
}

/// Saturation has brought the speed back.
pub open spec fn restored_text() -> Seq<char> {
    "ВОССТАНОВЛЕНО: скорость вернулась к норме. Переходим в цикл сна на 1 час."@
}

/// Saturation has brought the speed back.
pub fn restored() -> (r: String)
    ensures
        r@ == restored_text(),
        r@ == "ВОССТАНОВЛЕНО: скорость вернулась к норме. Переходим в цикл сна на 1 час."@,
{
    "ВОССТАНОВЛЕНО: скорость вернулась к норме. Переходим в цикл сна на 1 час.".to_string()
}

/// What to mind on Android before the sleep that follows saturation.
pub open spec fn android_restored_text() -> Seq<char> {
    "ANDROID: напоминание — если система остановит приложение в фоне, откройте его и нажмите «Запустить»."@
}

/// What to mind on Android before the sleep that follows saturation.
pub fn android_restored() -> (r: String)
    ensures
        r@ == android_restored_text(),
        r@ == "ANDROID: напоминание — если система остановит приложение в фоне, откройте его и нажмите «Запустить»."@,
{
    "ANDROID: напоминание — если система остановит приложение в фоне, откройте его и нажмите «Запустить».".to_string()
}

// The window and the log.

/// A line with the time at which it was reported.
pub open spec fn stamped_text(stamp: Seq<char>, line: Seq<char>) -> Seq<char> {
    "["@ + stamp + "] "@ + line
}

/// A line with the time at which it was reported.
pub fn stamped(stamp: &str, line: &str) -> (r: String)
    ensures
        r@ == stamped_text(stamp@, line@),
        r@ == "["@ + stamp@ + "] "@ + line@,
{
    let mut r = "[".to_string();
    r.append(stamp);
    r.append("] ");
    r.append(line);
    r
}

/// A line as it stands in the log: with the time at which it was reported, but for the
/// current speed, which stands below the line that it belongs to.
pub open spec fn log_line_text(stamp: Seq<char>, line: Seq<char>) -> Seq<char> {
    if "  Current: "@.is_prefix_of(line) {
        line
    } else {
        stamped_text(stamp, line)
    }
}

/// A line as it stands in the log: with the time at which it was reported, but for the
/// current speed, which stands below the line that it belongs to.
pub fn log_line(stamp: &str, line: &str) -> (r: String)
    ensures
        r@ == log_line_text(stamp@, line@),
        "  Current: "@.is_prefix_of(line@) ==> r@ == line@,
        !"  Current: "@.is_prefix_of(line@) ==> r@ == "["@ + stamp@ + "] "@ + line@,
{
    if begins_with(line, "  Current: ") {
        line.to_string()
    } else {
        stamped(stamp, line)
    }
}

/// The user has started the monitor.
pub open spec fn window_starting_text() -> Seq<char> {
    "[интерфейс] запуск..."@
}

/// The user has started the monitor.
pub fn window_starting() -> (r: String)
    ensures
        r@ == window_starting_text(),
        r@ == "[интерфейс] запуск..."@,
{
    "[интерфейс] запуск...".to_string()
}

/// What to mind on Android.
pub open spec fn window_android_text() -> Seq<char> {
    "[интерфейс] android: если приложение выгружено из фона, откройте его и нажмите «Запустить»."@
}

/// What to mind on Android.
pub fn window_android() -> (r: String)
    ensures
        r@ == window_android_text(),
        r@ == "[интерфейс] android: если приложение выгружено из фона, откройте его и нажмите «Запустить»."@,
{
    "[интерфейс] android: если приложение выгружено из фона, откройте его и нажмите «Запустить».".to_string()
}

/// The user has asked the monitor to stop.
pub open spec fn window_stopping_text() -> Seq<char> {
    "[интерфейс] запрошена остановка"@
}

/// The user has asked the monitor to stop.
pub fn window_stopping() -> (r: String)
    ensures
        r@ == window_stopping_text(),
        r@ == "[интерфейс] запрошена остановка"@,
{
    "[интерфейс] запрошена остановка".to_string()
}

/// The runtime could not be set up.
pub open spec fn no_runtime_text(err: Seq<char>) -> Seq<char> {
    "ОШИБКА: не удалось создать Tokio runtime: "@ + err
}

/// The runtime could not be set up.
pub fn no_runtime(err: &str) -> (r: String)
    ensures
        r@ == no_runtime_text(err@),
        r@ == "ОШИБКА: не удалось создать Tokio runtime: "@ + err@,
{
    let mut r = "ОШИБКА: не удалось создать Tokio runtime: ".to_string();
    r.append(err);
    r
}

/// The HTTP client could not be set up.
pub open spec fn no_client_text(err: Seq<char>) -> Seq<char> {
    "ОШИБКА: не удалось создать HTTP-клиент: "@ + err
}

/// The HTTP client could not be set up.
pub fn no_client(err: &str) -> (r: String)
    ensures
        r@ == no_client_text(err@),
        r@ == "ОШИБКА: не удалось создать HTTP-клиент: "@ + err@,
{
    let mut r = "ОШИБКА: не удалось создать HTTP-клиент: ".to_string();
    r.append(err);
    r
}

/// In the log the current speed stands as it is; the lines round it, which say that a check
/// begins and that the speed is healthy, stand with their time.
pub proof fn lemma_log_lines(stamp: Seq<char>, shown: Seq<char>, secs: nat)
    ensures
        log_line_text(stamp, current_speed_text(shown)) == current_speed_text(shown),
        log_line_text(stamp, checking_text(secs)) == stamped_text(stamp, checking_text(secs)),
        log_line_text(stamp, healthy_text(shown)) == stamped_text(stamp, healthy_text(shown)),
{
    reveal_strlit("  Current: ");
    reveal_strlit("CHECKING: Measuring current speed (");
    reveal_strlit("OK: Speed is ");
    let mark = "  Current: "@;
    let speed = current_speed_text(shown);
    assert(mark =~= speed.subrange(0, mark.len() as int));
    assert(checking_text(secs)[0] == 'C' && healthy_text(shown)[0] == 'O');
    if mark.is_prefix_of(checking_text(secs)) {
        assert(mark[0] == checking_text(secs).subrange(0, mark.len() as int)[0]);
    }
    if mark.is_prefix_of(healthy_text(shown)) {
        assert(mark[0] == healthy_text(shown).subrange(0, mark.len() as int)[0]);
    }
}

} // verus!
