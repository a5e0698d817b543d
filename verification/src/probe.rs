//! Probing a source: how an answer is judged.

use vstd::prelude::*;

use crate::config::default_config;
use crate::config::Config;
use crate::messages;
use crate::span::Span;
use crate::status;
use crate::text::views;

verus! {

/// How long each of the two parts of a latency probe may take, in seconds.
pub const PROBE_TIMEOUT_SECS: u64 = 5;

/// The range that a latency probe asks for.
pub const PROBE_RANGE: &'static str = "bytes=0-0";

/// How long the throughput of a source is measured, in seconds.
pub const THROUGHPUT_PROBE_SECS: u64 = 3;

/// How many parallel downloads measure the throughput of a source at most.
pub const THROUGHPUT_PROBE_STREAMS: usize = 16;

/// What became of the request of a probe.
pub enum Reply {
    /// No response came in time.
    TimedOut,
    /// The request failed.
    Failed(String),
    /// A response with this status came.
    Status(u16),
}

/// What became of the first piece of the response's body.
pub enum Chunk {
    /// It did not come in time.
    TimedOut,
    /// It came, with this many bytes.
    Data(usize),
    /// Reading it failed.
    Failed(String),
    /// The body ended before it.
    Missing,
}

impl Reply {
    /// Whether a response can be like this.
    pub open spec fn possible(self) -> bool {
        self matches Reply::Status(code) ==> status::is_status(code)
    }

    /// Why the probe fails here, where it does.
    pub open spec fn fault(self) -> Option<Seq<char>> {
        match self {
            Reply::TimedOut => Some(messages::timed_out_text()),
            Reply::Failed(err) => Some(err@),
            Reply::Status(code) => if status::is_success(code) {
                None
            } else {
                Some(messages::http_code_text(status::status_text(code)))
            },
        }
    }

    /// Whether the probe goes on to the body; if not, why.
    pub fn accept(self) -> (r: Result<(), String>)
        requires
            self.possible(),
        ensures
            r is Ok <==> self.fault() is None,
            r matches Err(err) ==> self.fault() == Some(err@),
            r is Ok <==> (self matches Reply::Status(code) && 200 <= code <= 299),
            self is TimedOut ==> (r matches Err(err) && err@ == "тайм-аут"@),
            self matches Reply::Failed(why) ==> (r matches Err(err) && err@ == why@),
            self matches Reply::Status(code) ==> !(200 <= code <= 299) ==> (r matches Err(err)
                && err@ == "код HTTP "@ + status::status_text(code)),
    {
        match self {
            Reply::TimedOut => Err(messages::timed_out()),
            Reply::Failed(err) => Err(err),
            Reply::Status(code) => if status::succeeded(code) {
                Ok(())
            } else {
                Err(messages::http_code(status::shown(code).as_str()))
            },
        }
    }
}

impl Chunk {
    /// Why the probe fails here, where it does.
    pub open spec fn fault(self) -> Option<Seq<char>> {
        match self {
            Chunk::TimedOut => Some(messages::timed_out_text()),
            Chunk::Data(_) => None,
            Chunk::Failed(err) => Some(err@),
            Chunk::Missing => Some(messages::no_data_text()),
        }
    }

    /// The latency that the probe found, which took `elapsed` so far; if none, why.
    pub fn latency(self, elapsed: Span) -> (r: Result<Span, String>)
        ensures
            r is Ok <==> self.fault() is None,
            r matches Ok(latency) ==> latency == elapsed,
            r matches Err(err) ==> self.fault() == Some(err@),
            r is Ok <==> self is Data,
            self is TimedOut ==> (r matches Err(err) && err@ == "тайм-аут"@),
            self matches Chunk::Failed(why) ==> (r matches Err(err) && err@ == why@),
            self is Missing ==> (r matches Err(err) && err@ == "нет данных"@),
    {
        match self {
            Chunk::TimedOut => Err(messages::timed_out()),
            Chunk::Data(_) => Ok(elapsed),
            Chunk::Failed(err) => Err(err),
            Chunk::Missing => Err(messages::no_data()),
        }
    }
}

/// A download that measures the throughput of one source.
pub struct ThroughputProbe {
    pub config: Config,
    pub duration: Span,
    pub targets: Vec<String>,
}

/// `streams`, but at least one and at most as many as a probe may have.
pub open spec fn probe_streams(streams: usize) -> usize {
    if streams < 1 {
        1
    } else if streams > THROUGHPUT_PROBE_STREAMS {
        THROUGHPUT_PROBE_STREAMS
    } else {
        streams
    }
}

/// The download that measures the throughput of `url` where `streams` parallel downloads
/// are asked for: three seconds long, from that source alone, with default settings but for
/// the number of parallel downloads.
pub fn plan_throughput_probe(url: &str, streams: usize) -> (r: ThroughputProbe)
    ensures
        r.config == (Config { streams: probe_streams(streams), ..default_config() }),
        r.duration == Span::of_secs(3),
        views(r.targets@) == seq![url@],
        1 <= r.config.streams <= 16,
        1 <= streams <= 16 ==> r.config.streams == streams,
        streams < 1 ==> r.config.streams == 1,
        streams > 16 ==> r.config.streams == 16,
        r.config.threshold_mbps.bits == 0x4034_0000_0000_0000,
        r.config.rolling_window_secs == 5,
        r.duration.nanos == 3_000_000_000,
        r.targets@.len() == 1 && r.targets@[0]@ == url@,
{
    let own: usize = if streams < 1 {
        1
    } else if streams > THROUGHPUT_PROBE_STREAMS {
        THROUGHPUT_PROBE_STREAMS
    } else {
        streams
    };
    let mut config = Config::default();
    config.streams = own;
    let mut targets: Vec<String> = Vec::new();
    targets.push(url.to_string());
    assert(views(targets@) =~= seq![url@]);
    ThroughputProbe { config, duration: Span::from_secs(THROUGHPUT_PROBE_SECS), targets }
}

/// A probe goes on to the body exactly where a response came with a status from 200 to 299;
/// else it fails, for the reason that the request failed, where it did.
pub proof fn lemma_reply(reply: Reply)
    requires
        reply.possible(),
    ensures
        reply matches Reply::Status(code) ==> (reply.fault() is None <==> 200 <= code <= 299),
        reply matches Reply::Status(code) ==> !(200 <= code <= 299) ==> reply.fault() == Some(
            "код HTTP "@ + status::status_text(code),
        ),
        reply matches Reply::Failed(why) ==> reply.fault() == Some(why@),
        reply is TimedOut ==> reply.fault() == Some("тайм-аут"@),
{
}

/// A probe that got to the body finds a latency exactly where a first piece came, be it empty
/// or not.
pub proof fn lemma_chunk(chunk: Chunk)
    ensures
        chunk.fault() is None <==> chunk is Data,
        chunk matches Chunk::Failed(why) ==> chunk.fault() == Some(why@),
        chunk is TimedOut ==> chunk.fault() == Some("тайм-аут"@),
        chunk is Missing ==> chunk.fault() == Some("нет данных"@),
{
}

/// A throughput probe never has more than sixteen parallel downloads and never less than one;
/// a number between these is kept; and more are never given for less.
pub proof fn lemma_probe_streams(asked: usize, more: usize)
    ensures
        1 <= probe_streams(asked) <= 16,
        1 <= asked <= 16 ==> probe_streams(asked) == asked,
        asked <= more ==> probe_streams(asked) <= probe_streams(more),
{
}

} // verus!
