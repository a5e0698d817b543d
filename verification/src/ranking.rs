//! Ranking sources by what was measured.

use vstd::prelude::*;

use crate::messages;
use crate::mode::SelectionMode;
use crate::rate::lemma_place_follows_value;
use crate::rate::lemma_total_order_of_bits;
use crate::rate::Rate;
use crate::span::Span;

verus! {

/// A measure by which sources are ranked.
pub trait Score: Copy {
    /// The place of this measure; the best has the lowest.
    spec fn rank(self) -> int;

    /// Whether this measure is better than `other`.
    fn better(self, other: Self) -> (r: bool)
        ensures
            r == (self.rank() < other.rank()),
    ;
}

impl Score for Span {
    /// The shorter the latency, the better.
    open spec fn rank(self) -> int {
        self.nanos as int
    }

    fn better(self, other: Span) -> (r: bool)
        ensures
            r == (self.nanos < other.nanos),
    {
        self.nanos < other.nanos
    }
}

impl Score for Rate {
    /// The higher the speed stands among all doubles, the better.
    open spec fn rank(self) -> int {
        -self.place()
    }

    fn better(self, other: Rate) -> (r: bool)
        ensures
            !self.is_nan() && !other.is_nan() && r ==> self.value() >= other.value(),
            !self.is_nan() && !other.is_nan() && self.value() > other.value() ==> r,
    {
        proof {
            if !self.is_nan() && !other.is_nan() {
                lemma_place_follows_value(self, other);
                lemma_place_follows_value(other, self);
            }
        }
        self.above(other)
    }
}

/// A measure together with how it is shown.
pub struct Reading<S> {
    pub score: S,
    pub shown: String,
}

/// A source that answered, with what was measured.
pub struct Measured<S> {
    pub url: String,
    pub score: S,
    pub shown: String,
}

/// Whether `item` has rank `rank`.
pub open spec fn ranked_at<S: Score>(rank: int) -> spec_fn(Measured<S>) -> bool {
    |item: Measured<S>| item.score.rank() == rank
}

/// Whether no item stands behind a worse one.
pub open spec fn best_first<S: Score>(s: Seq<Measured<S>>) -> bool {
    forall|i: int, j: int|
        0 <= i < j < s.len() ==> (#[trigger] s[i]).score.rank() <= (#[trigger] s[j]).score.rank()
}

/// Whether `ranked` is `items` put in order, the best first, equally good items in the
/// order in which they stood.
pub open spec fn is_ranking<S: Score>(items: Seq<Measured<S>>, ranked: Seq<Measured<S>>) -> bool {
    &&& best_first(ranked)
    &&& forall|k: int|
        #[trigger] ranked.filter(ranked_at::<S>(k)) == items.filter(ranked_at::<S>(k))
}

/// A filter that no item passes leaves nothing.
proof fn lemma_filter_none<A>(s: Seq<A>, pred: spec_fn(A) -> bool)
    requires
        forall|i: int| 0 <= i < s.len() ==> !pred(#[trigger] s[i]),
    ensures
        s.filter(pred) == Seq::<A>::empty(),
    decreases s.len(),
{
    reveal(Seq::filter);
    if s.len() > 0 {
        lemma_filter_none(s.drop_last(), pred);
    }
}

/// A filter on one item.
proof fn lemma_filter_one<A>(a: A, pred: spec_fn(A) -> bool)
    ensures
        seq![a].filter(pred) == if pred(a) {
            seq![a]
        } else {
            seq![]
        },
{
    reveal(Seq::filter);
    reveal_with_fuel(Seq::filter, 2);
    assert(seq![a].drop_last() =~= Seq::<A>::empty());
    assert(seq![a].filter(pred) =~= if pred(a) {
        seq![a]
    } else {
        seq![]
    });
}

/// An item put in front of its equals, behind everything better, keeps a ranking.
proof fn lemma_insert_keeps_ranking<S: Score>(
    items: Seq<Measured<S>>,
    ranked: Seq<Measured<S>>,
    item: Measured<S>,
    at: int,
)
    requires
        is_ranking(items, ranked),
        0 <= at <= ranked.len(),
        forall|i: int| 0 <= i < at ==> (#[trigger] ranked[i]).score.rank() < item.score.rank(),
        forall|i: int|
            at <= i < ranked.len() ==> item.score.rank() <= (#[trigger] ranked[i]).score.rank(),
    ensures
        is_ranking(seq![item] + items, ranked.insert(at, item)),
{
    let result = ranked.insert(at, item);
    let front = ranked.take(at);
    let back = ranked.skip(at);
    assert(ranked =~= front + back);
    assert(result =~= front + (seq![item] + back));
    assert(best_first(result)) by {
        assert forall|i: int, j: int| 0 <= i < j < result.len() implies (
        #[trigger] result[i]).score.rank() <= (#[trigger] result[j]).score.rank() by {
            let x = if i < at {
                ranked[i]
            } else if i == at {
                item
            } else {
                ranked[i - 1]
            };
            let y = if j < at {
                ranked[j]
            } else if j == at {
                item
            } else {
                ranked[j - 1]
            };
            assert(result[i] == x && result[j] == y);
        }
    }
    assert forall|k: int| #[trigger] result.filter(ranked_at::<S>(k)) == (seq![item]
        + items).filter(ranked_at::<S>(k)) by {
        let p = ranked_at::<S>(k);
        assert(ranked.filter(p) == items.filter(p));
        Seq::filter_distributes_over_add(front, back, p);
        Seq::filter_distributes_over_add(front, seq![item] + back, p);
        Seq::filter_distributes_over_add(seq![item], back, p);
        Seq::filter_distributes_over_add(seq![item], items, p);
        lemma_filter_one(item, p);
        if k == item.score.rank() {
            assert forall|i: int| 0 <= i < front.len() implies !p(#[trigger] front[i]) by {
                assert(front[i] == ranked[i]);
            }
            lemma_filter_none(front, p);
            assert(result.filter(p) =~= seq![item] + back.filter(p));
            assert(items.filter(p) =~= back.filter(p));
        } else {
            assert(result.filter(p) =~= front.filter(p) + back.filter(p));
            assert((seq![item] + items).filter(p) =~= items.filter(p));
        }
    }
}

/// The items in order, the best first, equally good ones in the order in which they
/// stand.
pub fn rank<S: Score>(items: Vec<Measured<S>>) -> (r: Vec<Measured<S>>)
    ensures
        is_ranking(items@, r@),
{
    let mut rest = items;
    let mut ranked: Vec<Measured<S>> = Vec::new();
    assert(items@.skip(items@.len() as int) =~= ranked@);
    while rest.len() > 0
        invariant
            rest@ == items@.take(rest@.len() as int),
            rest@.len() <= items@.len(),
            is_ranking(items@.skip(rest@.len() as int), ranked@),
        decreases rest@.len(),
    {
        let ghost tail = items@.skip(rest@.len() as int);
        let item = rest.pop().unwrap();
        let mut at: usize = 0;
        while at < ranked.len() && ranked[at].score.better(item.score)
            invariant
                at <= ranked@.len(),
                forall|i: int|
                    0 <= i < at ==> (#[trigger] ranked@[i]).score.rank() < item.score.rank(),
            decreases ranked@.len() - at,
        {
            at += 1;
        }
        proof {
            lemma_insert_keeps_ranking(tail, ranked@, item, at as int);
            assert(items@.skip(rest@.len() as int) =~= seq![item] + tail);
            assert(rest@ =~= items@.take(rest@.len() as int));
        }
        ranked.insert(at, item);
    }
    assert(items@.skip(0) =~= items@);
    ranked
}

/// Only one order of the items is a ranking of them.
pub proof fn lemma_ranking_unique<S: Score>(
    items: Seq<Measured<S>>,
    a: Seq<Measured<S>>,
    b: Seq<Measured<S>>,
)
    requires
        is_ranking(items, a),
        is_ranking(items, b),
    ensures
        a == b,
{
    assert forall|k: int| #[trigger] a.filter(ranked_at::<S>(k)) == b.filter(ranked_at::<S>(k)) by {
        assert(b.filter(ranked_at::<S>(k)) == items.filter(ranked_at::<S>(k)));
    }
    lemma_same_order(a, b);
}

/// Two sequences with the best first that agree on each rank agree.
proof fn lemma_same_order<S: Score>(a: Seq<Measured<S>>, b: Seq<Measured<S>>)
    requires
        best_first(a),
        best_first(b),
        forall|k: int| #[trigger] a.filter(ranked_at::<S>(k)) == b.filter(ranked_at::<S>(k)),
    ensures
        a == b,
    decreases a.len(),
{
    if a.len() == 0 {
        if b.len() > 0 {
            lemma_head_passes(b);
            let k = b[0].score.rank();
            lemma_filter_none(a, ranked_at::<S>(k));
            assert(a.filter(ranked_at::<S>(k)) == b.filter(ranked_at::<S>(k)));
        }
        assert(a =~= b);
    } else {
        let k = a[0].score.rank();
        lemma_head_passes(a);
        assert(a.filter(ranked_at::<S>(k)) == b.filter(ranked_at::<S>(k)));
        if b.len() == 0 {
            lemma_filter_none(b, ranked_at::<S>(k));
        }
        let l = b[0].score.rank();
        lemma_head_passes(b);
        assert(a.filter(ranked_at::<S>(l)) == b.filter(ranked_at::<S>(l)));
        if k < l {
            lemma_filter_none(b, ranked_at::<S>(k));
        }
        if l < k {
            lemma_filter_none(a, ranked_at::<S>(l));
        }
        assert(a[0] == b[0]);
        let (ta, tb) = (a.drop_first(), b.drop_first());
        assert(a =~= seq![a[0]] + ta);
        assert(b =~= seq![b[0]] + tb);
        assert forall|m: int| #[trigger] ta.filter(ranked_at::<S>(m)) == tb.filter(
            ranked_at::<S>(m),
        ) by {
            let p = ranked_at::<S>(m);
            assert(a.filter(p) == b.filter(p));
            Seq::filter_distributes_over_add(seq![a[0]], ta, p);
            Seq::filter_distributes_over_add(seq![b[0]], tb, p);
            lemma_filter_one(a[0], p);
            let n = seq![a[0]].filter(p).len() as int;
            assert(ta.filter(p) =~= a.filter(p).skip(n));
            assert(tb.filter(p) =~= b.filter(p).skip(n));
        }
        assert(best_first(ta)) by {
            assert forall|i: int, j: int| 0 <= i < j < ta.len() implies (
            #[trigger] ta[i]).score.rank() <= (#[trigger] ta[j]).score.rank() by {
                assert(ta[i] == a[i + 1] && ta[j] == a[j + 1]);
            }
        }
        assert(best_first(tb)) by {
            assert forall|i: int, j: int| 0 <= i < j < tb.len() implies (
            #[trigger] tb[i]).score.rank() <= (#[trigger] tb[j]).score.rank() by {
                assert(tb[i] == b[i + 1] && tb[j] == b[j + 1]);
            }
        }
        lemma_same_order(ta, tb);
        assert(a =~= b);
    }
}

/// The head of a sequence is the first item of its rank.
proof fn lemma_head_passes<S: Score>(s: Seq<Measured<S>>)
    requires
        s.len() > 0,
    ensures
        s.filter(ranked_at::<S>(s[0].score.rank())).len() > 0,
        s.filter(ranked_at::<S>(s[0].score.rank())).first() == s[0],
{
    let p = ranked_at::<S>(s[0].score.rank());
    assert(s =~= seq![s[0]] + s.drop_first());
    Seq::filter_distributes_over_add(seq![s[0]], s.drop_first(), p);
    lemma_filter_one(s[0], p);
}

/// A ranking holds the items that it ranks, and no others.
pub proof fn lemma_ranking_keeps_items<S: Score>(items: Seq<Measured<S>>, ranked: Seq<Measured<S>>)
    requires
        is_ranking(items, ranked),
    ensures
        forall|x: Measured<S>| ranked.contains(x) <==> items.contains(x),
        items.len() > 0 <==> ranked.len() > 0,
{
    assert forall|x: Measured<S>| ranked.contains(x) <==> items.contains(x) by {
        let p = ranked_at::<S>(x.score.rank());
        assert(ranked.filter(p) == items.filter(p));
        lemma_filter_contains(items, p, x);
        lemma_filter_contains(ranked, p, x);
    }
    if items.len() > 0 {
        assert(ranked.contains(items[0]));
    }
    if ranked.len() > 0 {
        assert(items.contains(ranked[0]));
    }
}

/// The first of a ranking is at least as good as every item that was ranked.
pub proof fn lemma_best_is_first<S: Score>(items: Seq<Measured<S>>, ranked: Seq<Measured<S>>)
    requires
        is_ranking(items, ranked),
        items.len() > 0,
    ensures
        ranked.len() > 0,
        items.contains(ranked[0]),
        forall|i: int|
            0 <= i < items.len() ==> ranked[0].score.rank() <= (#[trigger] items[i]).score.rank(),
{
    lemma_ranking_keeps_items(items, ranked);
    assert(ranked.contains(ranked[0]));
    assert forall|i: int| 0 <= i < items.len() implies ranked[0].score.rank() <= (
    #[trigger] items[i]).score.rank() by {
        assert(ranked.contains(items[i]));
        let j = choose|j: int| 0 <= j < ranked.len() && ranked[j] == items[i];
        assert(ranked[j].score.rank() >= ranked[0].score.rank());
    }
}

/// An item that passes a filter is in what the filter leaves exactly if it was there.
proof fn lemma_filter_contains<A>(s: Seq<A>, pred: spec_fn(A) -> bool, a: A)
    requires
        pred(a),
    ensures
        s.filter(pred).contains(a) <==> s.contains(a),
    decreases s.len(),
{
    reveal(Seq::filter);
    if s.len() > 0 {
        let front = s.drop_last();
        lemma_filter_contains(front, pred, a);
        if s.contains(a) {
            let i = choose|i: int| 0 <= i < s.len() && s[i] == a;
            if i < front.len() {
                assert(front[i] == a);
                assert(front.contains(a));
                let j = choose|j: int|
                    0 <= j < front.filter(pred).len() && front.filter(pred)[j] == a;
                assert(s.filter(pred)[j] == a);
            } else {
                assert(s.filter(pred).last() == a);
            }
        }
        if s.filter(pred).contains(a) {
            let j = choose|j: int| 0 <= j < s.filter(pred).len() && s.filter(pred)[j] == a;
            if j < front.filter(pred).len() {
                assert(front.filter(pred)[j] == a);
                assert(front.contains(a));
                let i = choose|i: int| 0 <= i < front.len() && front[i] == a;
                assert(s[i] == a);
            } else {
                assert(s[s.len() - 1] == a);
            }
        }
    }
}

/// Notes the outcome of probing `url` in `mode`: a source that answered joins `found`.
/// Gives the line that reports it.
pub fn record<S>(
    mode: SelectionMode,
    found: &mut Vec<Measured<S>>,
    url: String,
    outcome: Result<Reading<S>, String>,
) -> (line: String)
    ensures
        match outcome {
            Ok(reading) => {
                &&& final(found)@ == old(found)@.push(
                    (Measured { url, score: reading.score, shown: reading.shown }),
                )
                &&& line@ == messages::available_text(mode, url@, reading.shown@)
                &&& final(found)@.len() == old(found)@.len() + 1
                &&& final(found)@.last().url == url
                &&& final(found)@.last().score == reading.score
                &&& final(found)@.last().shown == reading.shown
            },
            Err(err) => {
                &&& final(found)@ == old(found)@
                &&& line@ == messages::unavailable_text(mode, url@, err@)
            },
        },
{
    match outcome {
        Ok(reading) => {
            let line = messages::available(mode, url.as_str(), reading.shown.as_str());
            found.push(Measured { url, score: reading.score, shown: reading.shown });
            line
        },
        Err(err) => messages::unavailable(mode, url.as_str(), err.as_str()),
    }
}

/// A ranking by latency: from one source to the next the nanoseconds never fall; the sources
/// of one latency are those that had it, in the order in which they answered; and a latency is
/// better than another exactly where it is shorter.
pub proof fn lemma_latency_ranking(
    items: Seq<Measured<Span>>,
    ranked: Seq<Measured<Span>>,
    nanos: u128,
)
    requires
        is_ranking(items, ranked),
    ensures
        forall|i: int, j: int|
            0 <= i < j < ranked.len() ==> (#[trigger] ranked[i]).score.nanos <= (
            #[trigger] ranked[j]).score.nanos,
        ranked.filter(|m: Measured<Span>| m.score.nanos == nanos) == items.filter(
            |m: Measured<Span>| m.score.nanos == nanos,
        ),
        forall|a: Span, b: Span|
            (#[trigger] a.rank() < #[trigger] b.rank()) <==> a.nanos < b.nanos,
{
    assert forall|i: int, j: int| 0 <= i < j < ranked.len() implies (
    #[trigger] ranked[i]).score.nanos <= (#[trigger] ranked[j]).score.nanos by {
        assert(ranked[i].score.rank() <= ranked[j].score.rank());
    }
    let p = |m: Measured<Span>| m.score.nanos == nanos;
    let q = ranked_at::<Span>(nanos as int);
    assert(p =~= q);
    assert(ranked.filter(q) == items.filter(q));
}

/// A ranking by throughput: of sources whose speeds are numbers none stands behind a slower
/// one; and the sources of one speed, bit for bit, are those that had it, in the order in which
/// they answered.
pub proof fn lemma_throughput_ranking(
    items: Seq<Measured<Rate>>,
    ranked: Seq<Measured<Rate>>,
    bits: u64,
)
    requires
        is_ranking(items, ranked),
    ensures
        forall|i: int, j: int|
            0 <= i < j < ranked.len() && !(#[trigger] ranked[i]).score.is_nan() && !(
            #[trigger] ranked[j]).score.is_nan() ==> ranked[i].score.value()
                >= ranked[j].score.value(),
        forall|i: int, j: int|
            0 <= i < j < ranked.len() ==> (#[trigger] ranked[i]).score.place() >= (
            #[trigger] ranked[j]).score.place(),
        ranked.filter(|m: Measured<Rate>| m.score.bits == bits) == items.filter(
            |m: Measured<Rate>| m.score.bits == bits,
        ),
{
    assert forall|i: int, j: int| 0 <= i < j < ranked.len() implies (
    #[trigger] ranked[i]).score.place() >= (#[trigger] ranked[j]).score.place() by {
        assert(ranked[i].score.rank() <= ranked[j].score.rank());
    }
    assert forall|i: int, j: int|
        0 <= i < j < ranked.len() && !(#[trigger] ranked[i]).score.is_nan() && !(
        #[trigger] ranked[j]).score.is_nan() implies ranked[i].score.value()
        >= ranked[j].score.value() by {
        assert(ranked[i].score.rank() <= ranked[j].score.rank());
        lemma_place_follows_value(ranked[j].score, ranked[i].score);
        lemma_place_follows_value(ranked[i].score, ranked[j].score);
    }
    let p = |m: Measured<Rate>| m.score.bits == bits;
    let rate = Rate { bits };
    let q = ranked_at::<Rate>(rate.rank());
    assert forall|m: Measured<Rate>| #[trigger] p(m) == q(m) by {
        lemma_total_order_of_bits(m.score, rate);
    }
    assert(p =~= q);
    assert(ranked.filter(q) == items.filter(q));
}

/// A ranking holds each item as often as it was there.
pub proof fn lemma_ranking_permutes<S: Score>(items: Seq<Measured<S>>, ranked: Seq<Measured<S>>)
    requires
        is_ranking(items, ranked),
    ensures
        ranked.to_multiset() == items.to_multiset(),
        ranked.len() == items.len(),
{
    assert forall|x: Measured<S>| #[trigger]
        ranked.to_multiset().count(x) == items.to_multiset().count(x) by {
        let p = ranked_at::<S>(x.score.rank());
        assert(ranked.filter(p) == items.filter(p));
        lemma_filter_count(items, p, x);
        lemma_filter_count(ranked, p, x);
    }
    assert(ranked.to_multiset() =~= items.to_multiset());
    broadcast use vstd::seq_lib::group_to_multiset_ensures;

    assert(ranked.to_multiset().len() == ranked.len());
    assert(items.to_multiset().len() == items.len());
}

/// A filter leaves an item that passes it as often as it was there.
proof fn lemma_filter_count<A>(s: Seq<A>, pred: spec_fn(A) -> bool, a: A)
    requires
        pred(a),
    ensures
        s.filter(pred).to_multiset().count(a) == s.to_multiset().count(a),
    decreases s.len(),
{
    broadcast use vstd::seq_lib::group_to_multiset_ensures;

    reveal(Seq::filter);
    if s.len() > 0 {
        let front = s.drop_last();
        lemma_filter_count(front, pred, a);
        assert(s =~= front.push(s.last()));
        assert(s.to_multiset() == front.to_multiset().insert(s.last()));
        if pred(s.last()) {
            assert(s.filter(pred) == front.filter(pred).push(s.last()));
            assert(s.filter(pred).to_multiset() == front.filter(pred).to_multiset().insert(
                s.last(),
            ));
        }
    } else {
        assert(s.filter(pred) =~= s);
    }
}

} // verus!
