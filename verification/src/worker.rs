//! The workers of a download: which source each asks next, and what it does with what
//! comes back.

use vstd::prelude::*;

use crate::messages;
use crate::requests::cache_busted;
use crate::requests::lemma_addresses_differ;
use crate::requests::lemma_query;
use crate::requests::with_cache_buster;
use crate::sources::or_default;
use crate::sources::targets_or_default;
use crate::span::Span;
use crate::status;
use crate::text::views;

verus! {

/// How long a worker waits after a status that is no success, in seconds.
pub const STATUS_PAUSE_SECS: u64 = 2;

/// How long a worker waits after a request that failed, in seconds.
pub const ERROR_PAUSE_SECS: u64 = 1;

/// How far apart a worker's reports of failure are at least, in seconds.
pub const REPORT_GAP_SECS: u64 = 5;

/// How many messages can wait between the workers and the meter.
pub const CHANNEL_CAPACITY: usize = 1024;

/// The sources of a download, with the line that reports them where there are several.
pub fn plan_download(targets: &[String]) -> (r: (Vec<String>, Option<String>))
    ensures
        views(r.0@) == or_default(views(targets@)),
        r.0@.len() > 0,
        targets@.len() > 0 ==> r.0@ == targets@,
        targets@.len() == 0 ==> r.0@.len() == 1 && r.0@[0]@
            == "https://speedtest.selectel.ru/100MB"@,
        match r.1 {
            Some(line) => targets@.len() > 1 && line@ == messages::rotating_text(targets@.len()),
            None => targets@.len() <= 1,
        },
{
    let own = targets_or_default(targets);
    assert(own@.len() == views(own@).len());
    if own.len() > 1 {
        let line = messages::rotating(own.len());
        (own, Some(line))
    } else {
        (own, None)
    }
}

/// One download request.
pub struct Request {
    /// The source that is asked.
    pub base_url: String,
    /// The address that is requested.
    pub url: String,
}

/// What a worker does with a response.
#[derive(Clone, Copy, Debug, PartialEq, Eq, Structural)]
pub enum Reaction {
    /// It reads the body.
    Read,
    /// It waits, then asks the next source.
    Pause(Span),
}

/// What a worker got while it reads a body.
#[derive(Clone, Copy, Debug, PartialEq, Eq, Structural)]
pub enum BodyEvent {
    /// This many bytes came.
    Data(usize),
    /// Reading failed.
    Failed,
    /// The body ended.
    End,
    /// The meter takes no more counts.
    Closed,
}

/// What a worker does next while it reads a body.
#[derive(Clone, Copy, Debug, PartialEq, Eq, Structural)]
pub enum BodyAction {
    /// It reports this many bytes to the meter and reads on.
    Count(usize),
    /// It asks the next source.
    NextRequest,
    /// It is done.
    Quit,
}

/// What a worker does with what it got while it reads a body.
pub fn on_body(event: BodyEvent) -> (r: BodyAction)
    ensures
        r == match event {
            BodyEvent::Data(len) => BodyAction::Count(len),
            BodyEvent::Failed => BodyAction::NextRequest,
            BodyEvent::End => BodyAction::NextRequest,
            BodyEvent::Closed => BodyAction::Quit,
        },
{
    match event {
        BodyEvent::Data(len) => BodyAction::Count(len),
        BodyEvent::Failed => BodyAction::NextRequest,
        BodyEvent::End => BodyAction::NextRequest,
        BodyEvent::Closed => BodyAction::Quit,
    }
}

/// One worker of a download from `targets` sources.
#[derive(Clone, Copy, Debug, PartialEq, Eq, Structural)]
pub struct Worker {
    pub index: usize,
    pub targets: usize,
    /// The source to ask next.
    pub target_idx: usize,
    /// The number of the next request.
    pub request_seq: u64,
    /// When a failure was last reported, since the worker began.
    pub reported_at: Option<Span>,
}

impl Worker {
    /// Whether this is a worker that can be.
    pub open spec fn wf(self) -> bool {
        self.target_idx < self.targets
    }

    /// Worker `index` of a download from `targets` sources, before its first request.
    pub open spec fn fresh(index: usize, targets: usize) -> Worker {
        Worker {
            index,
            targets,
            target_idx: (index as int % targets as int) as usize,
            request_seq: 0,
            reported_at: None,
        }
    }

    /// The worker after one request more.
    pub open spec fn advanced(self) -> Worker {
        Worker {
            target_idx: ((self.target_idx + 1) % self.targets as int) as usize,
            request_seq: ((self.request_seq + 1) % 0x1_0000_0000_0000_0000) as u64,
            ..self
        }
    }

    /// The worker after `count` requests more.
    pub open spec fn after(self, count: nat) -> Worker
        decreases count,
    {
        if count == 0 {
            self
        } else {
            self.after((count - 1) as nat).advanced()
        }
    }

    /// Whether a failure at `now` is reported: only the first worker reports, and only where
    /// its last report is long enough ago.
    pub open spec fn reports_at(self, now: Span) -> bool {
        self.index == 0 && match self.reported_at {
            None => true,
            Some(then) => now.nanos >= then.nanos + Span::of_secs(REPORT_GAP_SECS as int).nanos,
        }
    }

    /// The worker after a failure at `now`.
    pub open spec fn failed_at(self, now: Span) -> Worker {
        if self.reports_at(now) {
            Worker { reported_at: Some(now), ..self }
        } else {
            self
        }
    }

    /// Worker `index` of a download from `targets` sources.
    pub fn new(index: usize, targets: usize) -> (r: Worker)
        requires
            targets > 0,
        ensures
            r == Worker::fresh(index, targets),
            r.wf(),
            r.index == index,
            r.targets == targets,
            r.target_idx as int == index as int % targets as int,
            r.request_seq == 0,
            r.reported_at is None,
    {
        Worker {
            index,
            targets,
            target_idx: index % targets,
            request_seq: 0,
            reported_at: None,
        }
    }

    /// The next request of this worker; each asks the next source in turn.
    pub fn next_request(&mut self, targets: &[String]) -> (r: Request)
        requires
            old(self).wf(),
            targets@.len() == old(self).targets,
        ensures
            *final(self) == old(self).advanced(),
            final(self).wf(),
            final(self).target_idx as int == (old(self).target_idx + 1) % old(self).targets as int,
            old(self).request_seq < u64::MAX ==> final(self).request_seq == old(self).request_seq
                + 1,
            old(self).request_seq == u64::MAX ==> final(self).request_seq == 0,
            final(self).index == old(self).index,
            final(self).targets == old(self).targets,
            final(self).reported_at == old(self).reported_at,
            r.base_url@.is_prefix_of(r.url@),
            r.base_url@ == targets@[old(self).target_idx as int]@,
            r.url@ == cache_busted(
                targets@[old(self).target_idx as int]@,
                old(self).index as nat,
                old(self).request_seq as nat,
            ),
    {
        let base_url = targets[self.target_idx].clone();
        self.target_idx = (self.target_idx + 1) % self.targets;
        let url = with_cache_buster(base_url.as_str(), self.index, self.request_seq);
        proof {
            lemma_query(base_url@, self.index as nat, self.request_seq as nat);
        }
        self.request_seq = self.request_seq.wrapping_add(1);
        Request { base_url, url }
    }

    /// Whether a failure at `now` is reported; where it is, that is remembered.
    fn note_failure(&mut self, now: Span) -> (r: bool)
        ensures
            r == old(self).reports_at(now),
            *final(self) == old(self).failed_at(now),
    {
        let gap = Span::from_secs(REPORT_GAP_SECS);
        let due = match self.reported_at {
            None => true,
            Some(then) => now.since(then).nanos >= gap.nanos,
        };
        if self.index == 0 && due {
            self.reported_at = Some(now);
            true
        } else {
            false
        }
    }

    /// What the worker does with a response of status `code` that came from `base_url` at
    /// `now`, and the line that reports it, where one does.
    pub fn on_response(&mut self, base_url: &str, code: u16, now: Span) -> (r: (
        Reaction,
        Option<String>,
    ))
        requires
            status::is_status(code),
        ensures
            status::is_success(code) ==> {
                &&& *final(self) == *old(self)
                &&& r.0 == Reaction::Read
                &&& r.1 is None
            },
            !status::is_success(code) ==> {
                &&& *final(self) == old(self).failed_at(now)
                &&& r.0 == Reaction::Pause(Span::of_secs(2))
                &&& r.1 is Some <==> old(self).reports_at(now)
                &&& r.1 matches Some(line) ==> line@ == messages::bad_status_text(
                    base_url@,
                    status::status_text(code),
                )
            },
            r.0 == Reaction::Read <==> 200 <= code <= 299,
            !(200 <= code <= 299) ==> r.0 == Reaction::Pause(Span { nanos: 2_000_000_000 }),
            r.1 is Some <==> {
                &&& !(200 <= code <= 299)
                &&& old(self).index == 0
                &&& (old(self).reported_at matches Some(then) ==> now.nanos - then.nanos
                    >= 5_000_000_000)
            },
            final(self).reported_at == if r.1 is Some {
                Some(now)
            } else {
                old(self).reported_at
            },
            final(self).index == old(self).index,
            final(self).targets == old(self).targets,
            final(self).target_idx == old(self).target_idx,
            final(self).request_seq == old(self).request_seq,
    {
        if status::succeeded(code) {
            return (Reaction::Read, None);
        }
        let line = if self.note_failure(now) {
            Some(messages::bad_status(base_url, status::shown(code).as_str()))
        } else {
            None
        };
        (Reaction::Pause(Span::from_secs(STATUS_PAUSE_SECS)), line)
    }

    /// What the worker does where its request to `base_url` failed at `now` for the reason
    /// `err`, and the line that reports it, where one does.
    pub fn on_error(&mut self, base_url: &str, err: &str, now: Span) -> (r: (
        Reaction,
        Option<String>,
    ))
        ensures
            *final(self) == old(self).failed_at(now),
            r.0 == Reaction::Pause(Span::of_secs(1)),
            r.1 is Some <==> old(self).reports_at(now),
            r.1 matches Some(line) ==> line@ == messages::request_failed_text(base_url@, err@),
            r.0 == Reaction::Pause(Span { nanos: 1_000_000_000 }),
            r.1 is Some <==> {
                &&& old(self).index == 0
                &&& (old(self).reported_at matches Some(then) ==> now.nanos - then.nanos
                    >= 5_000_000_000)
            },
            final(self).reported_at == if r.1 is Some {
                Some(now)
            } else {
                old(self).reported_at
            },
            final(self).index == old(self).index,
            final(self).targets == old(self).targets,
            final(self).target_idx == old(self).target_idx,
            final(self).request_seq == old(self).request_seq,
    {
        let line = if self.note_failure(now) {
            Some(messages::request_failed(base_url, err))
        } else {
            None
        };
        (Reaction::Pause(Span::from_secs(ERROR_PAUSE_SECS)), line)
    }
}

/// Request number `count` of worker `index` goes to the source `index + count`, counted
/// round, and carries that number, counted round the range of the counter.
pub proof fn lemma_rotation(index: usize, targets: usize, count: nat)
    requires
        targets > 0,
    ensures
        Worker::fresh(index, targets).after(count).wf(),
        Worker::fresh(index, targets).after(count).index == index,
        Worker::fresh(index, targets).after(count).targets == targets,
        Worker::fresh(index, targets).after(count).target_idx == (index + count) % (targets as int),
        Worker::fresh(index, targets).after(count).request_seq == count as int
            % 0x1_0000_0000_0000_0000,
    decreases count,
{
    let n = targets as int;
    if count > 0 {
        let before = (count - 1) as nat;
        lemma_rotation(index, targets, before);
        vstd::arithmetic::div_mod::lemma_add_mod_noop((index + before) as int, 1, n);
        vstd::arithmetic::div_mod::lemma_add_mod_noop_right(1, (index + before) as int, n);
        vstd::arithmetic::div_mod::lemma_mod_bound((index + count) as int, n);
    } else {
        vstd::arithmetic::div_mod::lemma_mod_bound(index as int, n);
    }
}

/// In any run of as many requests as there are sources, a worker asks each source once.
pub proof fn lemma_rotation_covers(index: usize, targets: usize, start: nat, target: usize)
    requires
        target < targets,
    ensures
        exists|k: nat|
            start <= k < start + targets && (#[trigger] Worker::fresh(index, targets).after(
                k,
            )).target_idx == target,
        forall|j: nat, k: nat|
            start <= j < k < start + targets ==> (#[trigger] Worker::fresh(index, targets).after(
                j,
            )).target_idx != (#[trigger] Worker::fresh(index, targets).after(k)).target_idx,
{
    let n = targets as int;
    let s = index + start;
    let off = (target - s) % n;
    vstd::arithmetic::div_mod::lemma_mod_bound(target - s, n);
    let k = (start + off) as nat;
    lemma_rotation(index, targets, k);
    assert((index + k) % n == target) by {
        vstd::arithmetic::div_mod::lemma_add_mod_noop_right(s as int, target - s, n);
        vstd::arithmetic::div_mod::lemma_small_mod(target as nat, targets as nat);
        assert(s + (target - s) == target);
        assert(index + k == s + off);
    }
    assert(Worker::fresh(index, targets).after(k).target_idx == target);
    assert forall|j: nat, k: nat| start <= j < k < start + targets implies (
    #[trigger] Worker::fresh(index, targets).after(j)).target_idx != (#[trigger] Worker::fresh(
        index,
        targets,
    ).after(k)).target_idx by {
        lemma_rotation(index, targets, j);
        lemma_rotation(index, targets, k);
        let a = (index + j) as int;
        let d = (k - j) as int;
        if a % n == (a + d) % n {
            vstd::arithmetic::div_mod::lemma_fundamental_div_mod(a, n);
            vstd::arithmetic::div_mod::lemma_fundamental_div_mod(a + d, n);
            let (p, q) = (a / n, (a + d) / n);
            assert(d == n * (q - p)) by (nonlinear_arith)
                requires
                    a == n * p + a % n,
                    a + d == n * q + (a + d) % n,
                    a % n == (a + d) % n,
            ;
            assert(false) by (nonlinear_arith)
                requires
                    d == n * (q - p),
                    0 < d < n,
            ;
        }
    }
}

/// No two requests of a download share an address, be they of one worker or of two, as
/// long as no worker has counted once round: request `m` of worker `a` and request `n` of
/// worker `b` differ, whatever sources they go to.
pub proof fn lemma_requests_distinct(
    targets: usize,
    url_a: Seq<char>,
    a: usize,
    m: nat,
    url_b: Seq<char>,
    b: usize,
    n: nat,
)
    requires
        targets > 0,
        a != b || m != n,
        m < 0x1_0000_0000_0000_0000,
        n < 0x1_0000_0000_0000_0000,
    ensures
        cache_busted(url_a, a as nat, Worker::fresh(a, targets).after(m).request_seq as nat)
            != cache_busted(url_b, b as nat, Worker::fresh(b, targets).after(n).request_seq as nat),
{
    lemma_rotation(a, targets, m);
    lemma_rotation(b, targets, n);
    let p = Worker::fresh(a, targets).after(m).request_seq as nat;
    let q = Worker::fresh(b, targets).after(n).request_seq as nat;
    assert(p == m && q == n);
    if cache_busted(url_a, a as nat, p) == cache_busted(url_b, b as nat, q) {
        lemma_addresses_differ(url_a, a as nat, p, url_b, b as nat, q);
    }
}

impl Worker {
    /// The worker after failures at `times`.
    pub open spec fn failed_all(self, times: Seq<Span>) -> Worker
        decreases times.len(),
    {
        if times.len() == 0 {
            self
        } else {
            self.failed_all(times.drop_last()).failed_at(times.last())
        }
    }

    /// The times, of failures at `times`, at which a failure is reported.
    pub open spec fn reported(self, times: Seq<Span>) -> Seq<Span>
        decreases times.len(),
    {
        if times.len() == 0 {
            seq![]
        } else {
            let before = self.reported(times.drop_last());
            if self.failed_all(times.drop_last()).reports_at(times.last()) {
                before.push(times.last())
            } else {
                before
            }
        }
    }
}

/// Only the first worker reports failures; it reports its first failure; and any two of
/// its reports are at least five seconds apart.
pub proof fn lemma_reports(index: usize, targets: usize, times: Seq<Span>)
    ensures
        index != 0 ==> Worker::fresh(index, targets).reported(times).len() == 0,
        index == 0 && times.len() > 0 ==> Worker::fresh(index, targets).reported(times).len() > 0
            && Worker::fresh(index, targets).reported(times).first() == times.first(),
        forall|i: int, j: int|
            0 <= i < j < Worker::fresh(index, targets).reported(times).len() ==> (
            #[trigger] Worker::fresh(index, targets).reported(times)[j]).nanos - (
            #[trigger] Worker::fresh(index, targets).reported(times)[i]).nanos >= 5_000_000_000,
        Worker::fresh(index, targets).failed_all(times).index == index,
        Worker::fresh(index, targets).failed_all(times).reported_at == if Worker::fresh(
            index,
            targets,
        ).reported(times).len() == 0 {
            None::<Span>
        } else {
            Some(Worker::fresh(index, targets).reported(times).last())
        },
    decreases times.len(),
{
    if times.len() > 0 {
        let front = times.drop_last();
        lemma_reports(index, targets, front);
        let before = Worker::fresh(index, targets).reported(front);
        let all = Worker::fresh(index, targets).reported(times);
        assert forall|i: int, j: int| 0 <= i < j < all.len() implies (#[trigger] all[j]).nanos - (
        #[trigger] all[i]).nanos >= 5_000_000_000 by {
            if j < before.len() {
                assert(all[i] == before[i] && all[j] == before[j]);
            } else {
                assert(all[i] == before[i]);
                if i < before.len() - 1 {
                    assert(before[before.len() - 1].nanos - before[i].nanos >= 5_000_000_000);
                }
            }
        }
    }
}

/// A failure of the first worker is reported exactly where it is its first, or where its last
/// report is at least five seconds ago.
pub proof fn lemma_report_due(targets: usize, times: Seq<Span>, now: Span)
    ensures
        Worker::fresh(0, targets).reported(times.push(now)) == {
            let before = Worker::fresh(0, targets).reported(times);
            if before.len() == 0 || now.nanos - before.last().nanos >= 5_000_000_000 {
                before.push(now)
            } else {
                before
            }
        },
{
    lemma_reports(0, targets, times);
    assert(times.push(now).drop_last() =~= times);
}

/// Neither a request nor a failure changes which worker it is, and a failure changes neither
/// the source that is next nor the number of the next request.
pub proof fn lemma_worker_steps(worker: Worker, now: Span)
    ensures
        worker.advanced().index == worker.index,
        worker.advanced().targets == worker.targets,
        worker.advanced().reported_at == worker.reported_at,
        worker.failed_at(now).index == worker.index,
        worker.failed_at(now).targets == worker.targets,
        worker.failed_at(now).target_idx == worker.target_idx,
        worker.failed_at(now).request_seq == worker.request_seq,
{
}

} // verus!
