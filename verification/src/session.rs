//! What a run of the program begins with: the sources to try and the settings, as the
//! command line or the window asks for them.

use vstd::prelude::*;

use crate::config::default_config;
use crate::config::Config;
use crate::rate::Rate;
use crate::requests::is_digit;
use crate::sources::build_candidate_urls;
use crate::sources::candidate_urls;
use crate::sources::default_urls;
use crate::sources::lemma_candidate_list;
use crate::sources::lemma_candidates_order;
use crate::sources::lemma_default_urls_distinct;
use crate::sources::preference;
use crate::sources::DEFAULT_TEST_URL;
use crate::text::decimal;
use crate::text::digit_char;
use crate::text::trimmed;
use crate::text::views;

verus! {

/// How many parallel downloads the window lets a user ask for at most.
pub const MAX_STREAMS: usize = 64;

/// The sources to try, and whether the first of them is preferred.
pub struct SourcePlan {
    pub candidates: Vec<String>,
    pub prefer_first: bool,
}

/// The sources for a run from the command line with `arg` as its argument, where it has
/// one. The argument is preferred.
pub fn command_line_sources(arg: Option<&str>) -> (r: SourcePlan)
    ensures
        views(r.candidates@) == candidate_urls(
            if arg is Some {
                arg
            } else {
                Some(DEFAULT_TEST_URL)
            },
        ),
        r.prefer_first == (arg is Some),
        arg is None ==> views(r.candidates@) == default_urls(),
{
    proof {
        lemma_no_argument();
    }
    let candidates = match arg {
        Some(url) => build_candidate_urls(Some(url)),
        None => build_candidate_urls(Some(DEFAULT_TEST_URL)),
    };
    SourcePlan { candidates, prefer_first: arg.is_some() }
}

/// Without an argument all built-in sources are tried, in their order.
pub proof fn lemma_no_argument()
    ensures
        candidate_urls(Some(DEFAULT_TEST_URL)) == default_urls(),
{
    reveal_strlit("https://speedtest.selectel.ru/100MB");
    let wanted = DEFAULT_TEST_URL@;
    assert(wanted.first() == 'h' && wanted.last() == 'B');
    assert(trimmed(wanted) == wanted);
    lemma_default_urls_distinct();
    lemma_candidate_list(Some(DEFAULT_TEST_URL));
    assert(default_urls()[0] == wanted);
    assert(seq![wanted] + default_urls().remove(0) =~= default_urls());
}

/// The sources for a run from the window with `url` in its field for the source. What
/// stands there is preferred, unless it is blank.
pub fn window_sources(url: &str) -> (r: SourcePlan)
    ensures
        views(r.candidates@) == candidate_urls(Some(url)),
        r.prefer_first == (trimmed(url@).len() > 0),
{
    SourcePlan { candidates: build_candidate_urls(Some(url)), prefer_first: !url.trim().is_empty() }
}

/// With a blank field for the source all built-in sources are tried, in their order.
pub proof fn lemma_blank_field(url: &str)
    requires
        trimmed(url@).len() == 0,
    ensures
        candidate_urls(Some(url)) == default_urls(),
{
    lemma_candidates_order(Some(url));
    assert(preference(Some(url)) + default_urls() =~= default_urls());
}

/// The settings for a run from the window: defaults, but for what the window asks for.
pub fn window_config(threshold_mbps: Rate, streams: usize) -> (r: Config)
    ensures
        r == (Config { threshold_mbps, streams, ..default_config() }),
        r.threshold_mbps == threshold_mbps,
        r.streams == streams,
        r.sleep_duration.nanos == 3_600_000_000_000,
        r.check_duration.nanos == 5_000_000_000,
        r.rolling_window_secs == 5,
{
    let mut config = Config::default();
    config.threshold_mbps = threshold_mbps;
    config.streams = streams;
    config
}

/// The number that the digit `c` stands for.
pub open spec fn digit_value(c: char) -> nat {
    (c as int - 48) as nat
}

/// The number that the digits of `s` stand for.
pub open spec fn number_of(s: Seq<char>) -> nat
    decreases s.len(),
{
    if s.len() == 0 {
        0
    } else {
        number_of(s.drop_last()) * 10 + digit_value(s.last())
    }
}

/// Whether `s` is made of digits, at least one.
pub open spec fn is_numeral(s: Seq<char>) -> bool {
    s.len() > 0 && forall|i: int| 0 <= i < s.len() ==> is_digit(#[trigger] s[i])
}

/// `s` without a plus sign in front.
pub open spec fn unsigned(s: Seq<char>) -> Seq<char> {
    if s.len() > 0 && s[0] == '+' {
        s.skip(1)
    } else {
        s
    }
}

/// The number that `s` is a numeral of, with or without a plus sign in front, where it fits
/// a machine word.
pub open spec fn parsed(s: Seq<char>) -> Option<usize> {
    if is_numeral(unsigned(s)) && number_of(unsigned(s)) <= usize::MAX {
        Some(number_of(unsigned(s)) as usize)
    } else {
        None
    }
}

/// More digits never make a number smaller.
proof fn lemma_number_grows(s: Seq<char>, n: int)
    requires
        0 <= n <= s.len(),
    ensures
        number_of(s.take(n)) <= number_of(s),
    decreases s.len() - n,
{
    if n == s.len() {
        assert(s.take(n) =~= s);
    } else {
        lemma_number_grows(s, n + 1);
        assert(s.take(n + 1).drop_last() =~= s.take(n));
    }
}

/// The number that `text` is a numeral of, where it is one.
pub fn parse_count(text: &str) -> (r: Option<usize>)
    ensures
        r == parsed(text@),
{
    let n = text.unicode_len();
    let from: usize = if n > 0 && text.get_char(0) == '+' {
        1
    } else {
        0
    };
    let ghost digits = unsigned(text@);
    assert(digits =~= text@.skip(from as int));
    if from == n {
        return None;
    }
    let mut value: usize = 0;
    let mut i: usize = from;
    assert(digits.take(0) =~= Seq::<char>::empty());
    while i < n
        invariant
            n == text@.len(),
            from <= i <= n,
            digits == unsigned(text@),
            digits == text@.skip(from as int),
            forall|j: int| 0 <= j < i - from ==> is_digit(#[trigger] digits[j]),
            value == number_of(digits.take(i - from)),
        decreases n - i,
    {
        let c = text.get_char(i);
        assert(digits[i - from] == c);
        if c < '0' || c > '9' {
            return None;
        }
        let d = (c as u32 - 48) as usize;
        proof {
            assert(digits.take(i - from + 1).drop_last() =~= digits.take(i - from));
            lemma_number_grows(digits, i - from + 1);
        }
        match value.checked_mul(10) {
            Some(tens) => match tens.checked_add(d) {
                Some(sum) => {
                    value = sum;
                },
                None => {
                    return None;
                },
            },
            None => {
                return None;
            },
        }
        i += 1;
    }
    assert(digits.take(n - from) =~= digits);
    Some(value)
}

/// The number of parallel downloads that `text` in the window's field asks for, brought
/// into the range from one to sixty-four. None where `text` is no number: then what was
/// asked for before stays.
pub fn parse_streams(text: &str) -> (r: Option<usize>)
    ensures
        r == match parsed(text@) {
            Some(count) => Some(clamped(count)),
            None => None::<usize>,
        },
        r is Some <==> parsed(text@) is Some,
        parsed(text@) matches Some(count) ==> {
            &&& count == 0 ==> r == Some(1usize)
            &&& 1 <= count <= 64 ==> r == Some(count)
            &&& count > 64 ==> r == Some(64usize)
        },
{
    match parse_count(text) {
        Some(count) => {
            if count < 1 {
                Some(1)
            } else if count > MAX_STREAMS {
                Some(MAX_STREAMS)
            } else {
                Some(count)
            }
        },
        None => None,
    }
}

/// A number is read back from its numeral.
pub proof fn lemma_number_round_trip(n: usize)
    ensures
        parsed(decimal(n as nat)) == Some(n),
{
    lemma_decimal_number(n as nat);
    assert(decimal(n as nat)[0] != '+');
}

/// The numeral of `n` is one, and stands for `n`.
proof fn lemma_decimal_number(n: nat)
    ensures
        is_numeral(decimal(n)),
        number_of(decimal(n)) == n,
    decreases n,
{
    if n < 10 {
        assert(decimal(n).drop_last() =~= Seq::<char>::empty());
        assert(decimal(n).last() == digit_char(n));
        assert(number_of(decimal(n).drop_last()) == 0);
    } else {
        lemma_decimal_number(n / 10);
        assert(decimal(n).drop_last() =~= decimal(n / 10));
        assert(decimal(n).last() == digit_char(n % 10));
    }
}

/// What the window asks for.
#[derive(Clone, Copy, Debug, PartialEq, Eq, Structural)]
pub struct Fields {
    pub threshold_mbps: Rate,
    pub streams: usize,
}

/// What a user enters in the window.
pub enum Input {
    /// A text in the field for the threshold; the speed that it stands for, where it stands
    /// for one.
    Threshold(Option<Rate>),
    /// A text in the field for the number of parallel downloads.
    Streams(Seq<char>),
}

/// `count`, brought into the range that the window allows.
pub open spec fn clamped(count: usize) -> usize {
    if count < 1 {
        1
    } else if count > MAX_STREAMS {
        MAX_STREAMS
    } else {
        count
    }
}

impl Fields {
    /// What the window asks for before anything is entered.
    pub open spec fn fresh() -> Fields {
        Fields {
            threshold_mbps: default_config().threshold_mbps,
            streams: default_config().streams,
        }
    }

    /// The fields after `input`: what stands for nothing changes nothing.
    pub open spec fn entered(self, input: Input) -> Fields {
        match input {
            Input::Threshold(Some(threshold_mbps)) => Fields { threshold_mbps, ..self },
            Input::Threshold(None) => self,
            Input::Streams(text) => match parsed(text) {
                Some(count) => Fields { streams: clamped(count), ..self },
                None => self,
            },
        }
    }

    /// The fields after `inputs`.
    pub open spec fn after(self, inputs: Seq<Input>) -> Fields
        decreases inputs.len(),
    {
        if inputs.len() == 0 {
            self
        } else {
            self.after(inputs.drop_last()).entered(inputs.last())
        }
    }

    /// What the window asks for before anything is entered: the default settings.
    pub fn new() -> (r: Fields)
        ensures
            r == Fields::fresh(),
            r.threshold_mbps.bits == 0x4034_0000_0000_0000,
            r.streams == 4,
    {
        let config = Config::default();
        Fields { threshold_mbps: config.threshold_mbps, streams: config.streams }
    }

    /// Takes a text from the field for the threshold, as the speed that it stands for, where it
    /// stands for one.
    pub fn enter_threshold(&mut self, threshold_mbps: Option<Rate>)
        ensures
            *final(self) == old(self).entered(Input::Threshold(threshold_mbps)),
            final(self).streams == old(self).streams,
            final(self).threshold_mbps == match threshold_mbps {
                Some(entered) => entered,
                None => old(self).threshold_mbps,
            },
    {
        if let Some(threshold_mbps) = threshold_mbps {
            self.threshold_mbps = threshold_mbps;
        }
    }

    /// Takes a text from the field for the number of parallel downloads.
    pub fn enter_streams(&mut self, text: &str)
        ensures
            *final(self) == old(self).entered(Input::Streams(text@)),
            final(self).threshold_mbps == old(self).threshold_mbps,
            parsed(text@) is None ==> final(self).streams == old(self).streams,
            parsed(text@) matches Some(count) ==> {
                &&& count == 0 ==> final(self).streams == 1
                &&& 1 <= count <= 64 ==> final(self).streams == count
                &&& count > 64 ==> final(self).streams == 64
            },
    {
        if let Some(streams) = parse_streams(text) {
            self.streams = streams;
        }
    }
}

/// Whatever is entered, the number of parallel downloads stays in range; a text that is no
/// number leaves everything as it was; one that is sets that field alone.
pub proof fn lemma_fields(inputs: Seq<Input>, input: Input)
    ensures
        1 <= Fields::fresh().after(inputs).streams <= MAX_STREAMS,
        Fields::fresh().after(inputs).streams <= 64,
        input matches Input::Streams(text) ==> (parsed(text) matches Some(count) ==> {
            let streams = Fields::fresh().after(inputs.push(input)).streams;
            &&& count == 0 ==> streams == 1
            &&& 1 <= count <= 64 ==> streams == count
            &&& count > 64 ==> streams == 64
        }),
        Fields::fresh().after(inputs.push(input)) == match input {
            Input::Threshold(Some(threshold_mbps)) => Fields {
                threshold_mbps,
                ..Fields::fresh().after(inputs)
            },
            Input::Threshold(None) => Fields::fresh().after(inputs),
            Input::Streams(text) => match parsed(text) {
                Some(count) => Fields {
                    streams: clamped(count),
                    ..Fields::fresh().after(inputs)
                },
                None => Fields::fresh().after(inputs),
            },
        },
    decreases inputs.len(),
{
    assert(inputs.push(input).drop_last() =~= inputs);
    if inputs.len() > 0 {
        lemma_fields(inputs.drop_last(), inputs.last());
    }
}

/// What a text has to be for a number to be read from it: not empty, but for a plus sign in
/// front, and made of the digits from zero to nine. The plus sign changes nothing, and there
/// is at most one.
pub proof fn lemma_numerals(s: Seq<char>)
    ensures
        parsed(seq![]) is None,
        parsed(seq!['+']) is None,
        parsed(s) is Some ==> forall|i: int|
            0 <= i < s.len() ==> '0' <= #[trigger] s[i] <= '9' || (i == 0 && s[i] == '+'),
        s.len() == 0 || s[0] != '+' ==> parsed(seq!['+'] + s) == parsed(s),
{
    let plus = seq!['+'];
    assert(unsigned(plus) =~= Seq::<char>::empty());
    if parsed(s) is Some {
        let digits = unsigned(s);
        assert forall|i: int| 0 <= i < s.len() implies '0' <= #[trigger] s[i] <= '9' || (i == 0
            && s[i] == '+') by {
            if s[0] == '+' {
                if i > 0 {
                    assert(is_digit(digits[i - 1]));
                }
            } else {
                assert(is_digit(digits[i]));
            }
        }
    }
    if s.len() == 0 || s[0] != '+' {
        assert(unsigned(plus + s) =~= s);
    }
}

/// What number is read: one digit stands for itself, and a digit behind a number for ten times
/// that number and itself, where that fits a machine word. What cannot be read is not made
/// readable by what stands behind it, unless it is empty or a plus sign alone.
pub proof fn lemma_numeral_values(s: Seq<char>, c: char)
    ensures
        '0' <= c <= '9' ==> parsed(seq![c]) == Some((c as int - 48) as usize),
        parsed(s) matches Some(n) ==> parsed(s.push(c)) == if '0' <= c <= '9' && n * 10 + (c as int
            - 48) <= usize::MAX {
            Some((n * 10 + (c as int - 48)) as usize)
        } else {
            None
        },
        parsed(s) is None && s.len() > 0 && s != seq!['+'] ==> parsed(s.push(c)) is None,
{
    let one = seq![c];
    assert(one.drop_last() =~= Seq::<char>::empty());
    assert(number_of(one.drop_last()) == 0);
    if '0' <= c <= '9' {
        assert(unsigned(one) == one);
        assert(number_of(one) == digit_value(c));
    }
    let digits = unsigned(s);
    let longer = s.push(c);
    if s.len() > 0 {
        assert(unsigned(longer) =~= digits.push(c));
        let more = digits.push(c);
        assert(more.drop_last() =~= digits);
        assert(more.last() == c);
        assert(more[more.len() - 1] == c);
        if digits.len() == 0 {
            assert(s =~= seq!['+']);
        }
        if is_numeral(more) && digits.len() > 0 {
            assert forall|i: int| 0 <= i < digits.len() implies is_digit(#[trigger] digits[i]) by {
                assert(more[i] == digits[i]);
            }
            assert(is_numeral(digits));
        }
        if is_numeral(digits) && is_digit(c) {
            assert forall|i: int| 0 <= i < more.len() implies is_digit(#[trigger] more[i]) by {
                if i < digits.len() {
                    assert(more[i] == digits[i]);
                }
            }
        }
    }
}

} // verus!
