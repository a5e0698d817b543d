//! Choosing the source to measure with and the sources to rotate over.
//!
//! The network work in between belongs to the caller: each step says what to probe next
//! and takes what came of it.

use vstd::prelude::*;

use crate::messages;
use crate::mode::SelectionMode;
use crate::ranking::is_ranking;
use crate::ranking::lemma_best_is_first;
use crate::ranking::Measured;
use crate::ranking::Score;
use crate::sources::copy_from;
use crate::sources::first_occurrences;
use crate::sources::lemma_distinct_stays;
use crate::sources::lemma_first_occurrences;
use crate::sources::precedes;
use crate::sources::push_new;
use crate::sources::DEFAULT_TEST_URL;
use crate::text::decimal;
use crate::text::views;

verus! {

/// The chosen source, and the sources to rotate over.
pub struct SelectionResult {
    pub selected: String,
    pub rotation_targets: Vec<String>,
}

/// The addresses of measured sources.
pub open spec fn urls_of<S>(s: Seq<Measured<S>>) -> Seq<Seq<char>> {
    s.map_values(|m: Measured<S>| m.url@)
}

/// The chosen source: the preferred one where it answered, else the best of those that
/// answered, else the first candidate.
pub open spec fn chosen(
    candidates: Seq<Seq<char>>,
    preferred_ok: bool,
    ranked: Seq<Seq<char>>,
) -> Seq<char> {
    if candidates.len() == 0 {
        DEFAULT_TEST_URL@
    } else if !preferred_ok && ranked.len() > 0 {
        ranked[0]
    } else {
        candidates[0]
    }
}

/// The sources that answered, none twice: the preferred one first, then the others, the
/// best first. Where none answered, the chosen one.
pub open spec fn rotation(
    candidates: Seq<Seq<char>>,
    preferred_ok: bool,
    ranked: Seq<Seq<char>>,
) -> Seq<Seq<char>> {
    let head = if preferred_ok {
        seq![candidates[0]]
    } else {
        seq![]
    };
    if candidates.len() == 0 || (!preferred_ok && ranked.len() == 0) {
        seq![chosen(candidates, preferred_ok, ranked)]
    } else {
        first_occurrences(head + ranked)
    }
}

/// The choice among `candidates`, where `preferred_ok` says whether the first of them was
/// preferred and answered, and `ranked` holds the others that answered, the best first.
pub fn select_available_url<S>(
    candidates: &[String],
    preferred_ok: bool,
    ranked: &Vec<Measured<S>>,
) -> (r: SelectionResult)
    ensures
        r.selected@ == chosen(views(candidates@), preferred_ok, urls_of(ranked@)),
        views(r.rotation_targets@) == rotation(views(candidates@), preferred_ok, urls_of(ranked@)),
        candidates@.len() == 0 ==> r.selected@ == "https://speedtest.selectel.ru/100MB"@
            && r.rotation_targets@.len() == 1,
        candidates@.len() > 0 && preferred_ok ==> r.selected@ == candidates@[0]@,
        candidates@.len() > 0 && !preferred_ok && ranked@.len() > 0 ==> r.selected@
            == ranked@[0].url@,
        candidates@.len() > 0 && !preferred_ok && ranked@.len() == 0 ==> r.selected@
            == candidates@[0]@ && r.rotation_targets@.len() == 1,
        r.rotation_targets@.len() > 0,
        r.rotation_targets@[0]@ == r.selected@,
        views(r.rotation_targets@).no_duplicates(),
        candidates@.len() > 0 ==> forall|i: int|
            0 <= i < ranked@.len() ==> views(r.rotation_targets@).contains(
                (#[trigger] ranked@[i]).url@,
            ),
{
    proof {
        lemma_selection(views(candidates@), preferred_ok, urls_of(ranked@));
        assert forall|i: int| 0 <= i < ranked@.len() implies urls_of(ranked@).contains(
            (#[trigger] ranked@[i]).url@,
        ) by {
            assert(urls_of(ranked@)[i] == ranked@[i].url@);
        }
    }
    let ghost names = views(candidates@);
    let ghost urls = urls_of(ranked@);
    let mut rotation_targets: Vec<String> = Vec::new();
    if candidates.len() == 0 {
        rotation_targets.push(DEFAULT_TEST_URL.to_string());
        assert(views(rotation_targets@) =~= seq![DEFAULT_TEST_URL@]);
        assert(views(rotation_targets@)[0] == rotation_targets@[0]@);
        return SelectionResult { selected: DEFAULT_TEST_URL.to_string(), rotation_targets };
    }
    let selected = if !preferred_ok && ranked.len() > 0 {
        ranked[0].url.clone()
    } else {
        candidates[0].clone()
    };
    let ghost head = if preferred_ok {
        seq![names[0]]
    } else {
        seq![]
    };
    if preferred_ok {
        rotation_targets.push(candidates[0].clone());
    }
    proof {
        assert(views(rotation_targets@) =~= head);
        reveal_with_fuel(first_occurrences, 2);
        assert(first_occurrences(head) =~= head);
        assert(head + urls.take(0) =~= head);
    }
    for i in 0..ranked.len()
        invariant
            urls == urls_of(ranked@),
            views(rotation_targets@) == first_occurrences(head + urls.take(i as int)),
    {
        let url = ranked[i].url.clone();
        proof {
            let next = head + urls.take(i + 1);
            assert(next.drop_last() =~= head + urls.take(i as int));
            assert(next.last() == url@);
            lemma_first_occurrences(head + urls.take(i as int));
        }
        push_new(&mut rotation_targets, url);
    }
    proof {
        assert(urls.take(ranked@.len() as int) =~= urls);
        lemma_first_occurrences(head + urls);
    }
    if rotation_targets.len() == 0 {
        rotation_targets.push(selected.clone());
        proof {
            assert(views(rotation_targets@) =~= seq![selected@]);
            if urls.len() > 0 {
                assert((head + urls).len() > 0);
            }
        }
    }
    proof {
        assert(rotation_targets@.len() == views(rotation_targets@).len());
        assert(views(rotation_targets@)[0] == rotation_targets@[0]@);
    }
    SelectionResult { selected, rotation_targets }
}

/// The choice, in each case. With no candidates it is the default source alone. A preferred
/// source that answered is chosen and rotated over first, whatever else answered. Else the
/// first of the others that answered is chosen and rotated over first. Where none answered it
/// is the first candidate alone.
pub proof fn lemma_choice(
    candidates: Seq<Seq<char>>,
    preferred_ok: bool,
    ranked: Seq<Seq<char>>,
)
    ensures
        candidates.len() == 0 ==> chosen(candidates, preferred_ok, ranked)
            == "https://speedtest.selectel.ru/100MB"@ && rotation(candidates, preferred_ok, ranked)
            == seq!["https://speedtest.selectel.ru/100MB"@],
        candidates.len() > 0 && preferred_ok ==> chosen(candidates, preferred_ok, ranked)
            == candidates[0] && rotation(candidates, preferred_ok, ranked).len() > 0 && rotation(
            candidates,
            preferred_ok,
            ranked,
        )[0] == candidates[0],
        candidates.len() > 0 && !preferred_ok && ranked.len() > 0 ==> chosen(
            candidates,
            preferred_ok,
            ranked,
        ) == ranked[0] && rotation(candidates, preferred_ok, ranked).len() > 0 && rotation(
            candidates,
            preferred_ok,
            ranked,
        )[0] == ranked[0],
        candidates.len() > 0 && !preferred_ok && ranked.len() == 0 ==> chosen(
            candidates,
            preferred_ok,
            ranked,
        ) == candidates[0] && rotation(candidates, preferred_ok, ranked) == seq![candidates[0]],
{
    lemma_selection(candidates, preferred_ok, ranked);
}

/// The sources are rotated over in the order in which they are ranked, behind a preferred one
/// that answered: of two, the one that is rotated over first stands before the other there.
/// Where none stands there twice, that order is the rotation.
pub proof fn lemma_rotation_order(
    candidates: Seq<Seq<char>>,
    preferred_ok: bool,
    ranked: Seq<Seq<char>>,
)
    requires
        candidates.len() > 0,
        preferred_ok || ranked.len() > 0,
    ensures
        preferred_ok ==> forall|i: int, j: int|
            0 <= i < j < rotation(candidates, preferred_ok, ranked).len() ==> precedes(
                seq![candidates[0]] + ranked,
                #[trigger] rotation(candidates, preferred_ok, ranked)[i],
                #[trigger] rotation(candidates, preferred_ok, ranked)[j],
            ),
        !preferred_ok ==> forall|i: int, j: int|
            0 <= i < j < rotation(candidates, preferred_ok, ranked).len() ==> precedes(
                ranked,
                #[trigger] rotation(candidates, preferred_ok, ranked)[i],
                #[trigger] rotation(candidates, preferred_ok, ranked)[j],
            ),
        preferred_ok && (seq![candidates[0]] + ranked).no_duplicates() ==> rotation(
            candidates,
            preferred_ok,
            ranked,
        ) == seq![candidates[0]] + ranked,
        !preferred_ok && ranked.no_duplicates() ==> rotation(candidates, preferred_ok, ranked)
            == ranked,
{
    if preferred_ok {
        lemma_first_occurrences(seq![candidates[0]] + ranked);
        if (seq![candidates[0]] + ranked).no_duplicates() {
            lemma_distinct_stays(seq![candidates[0]] + ranked);
        }
    } else {
        assert(Seq::<Seq<char>>::empty() + ranked =~= ranked);
        lemma_first_occurrences(ranked);
        if ranked.no_duplicates() {
            lemma_distinct_stays(ranked);
        }
    }
}

/// The choice, whatever was measured: the chosen source is the first to rotate over;
/// there is always one; none is named twice; each source that answered is rotated over;
/// and, where there are candidates, nothing else than candidates that answered and the
/// chosen source is.
pub proof fn lemma_selection(
    candidates: Seq<Seq<char>>,
    preferred_ok: bool,
    ranked: Seq<Seq<char>>,
)
    ensures
        rotation(candidates, preferred_ok, ranked).len() > 0,
        rotation(candidates, preferred_ok, ranked).first() == chosen(
            candidates,
            preferred_ok,
            ranked,
        ),
        rotation(candidates, preferred_ok, ranked).no_duplicates(),
        candidates.len() > 0 ==> forall|url: Seq<char>|
            rotation(candidates, preferred_ok, ranked).contains(url) <==> ranked.contains(url)
                || url == chosen(candidates, preferred_ok, ranked),
{
    let head = if preferred_ok {
        seq![candidates[0]]
    } else {
        seq![]
    };
    let all = head + ranked;
    let result = rotation(candidates, preferred_ok, ranked);
    lemma_first_occurrences(all);
    if candidates.len() == 0 || all.len() == 0 {
        assert(result.len() == 1);
        assert(forall|url: Seq<char>| result.contains(url) ==> url == result[0]);
        assert(result.contains(result[0]));
    } else {
        assert(all.first() == chosen(candidates, preferred_ok, ranked));
        assert forall|url: Seq<char>| result.contains(url) <==> ranked.contains(url) || url
            == chosen(candidates, preferred_ok, ranked) by {
            if ranked.contains(url) {
                let i = choose|i: int| 0 <= i < ranked.len() && ranked[i] == url;
                assert(all[head.len() + i] == url);
                assert(all.contains(url));
            }
            if url == chosen(candidates, preferred_ok, ranked) {
                assert(all[0] == url);
                assert(all.contains(url));
            }
            if all.contains(url) {
                let i = choose|i: int| 0 <= i < all.len() && all[i] == url;
                if i >= head.len() {
                    assert(ranked[i - head.len()] == url);
                }
            }
        }
    }
}

/// Where only candidates are surveyed, only candidates are rotated over.
pub proof fn lemma_rotation_within_candidates(
    candidates: Seq<Seq<char>>,
    preferred_ok: bool,
    ranked: Seq<Seq<char>>,
)
    requires
        candidates.len() > 0,
        forall|url: Seq<char>| ranked.contains(url) ==> candidates.contains(url),
    ensures
        candidates.contains(chosen(candidates, preferred_ok, ranked)),
        forall|url: Seq<char>|
            rotation(candidates, preferred_ok, ranked).contains(url) ==> candidates.contains(url),
{
    lemma_selection(candidates, preferred_ok, ranked);
    assert(candidates.contains(candidates[0]));
    if ranked.len() > 0 {
        assert(ranked.contains(ranked[0]));
    }
}

/// Where the preferred source is none or did not answer, the chosen source is one that
/// answered, and none that answered is better.
pub proof fn lemma_chosen_is_best<S: Score>(
    candidates: Seq<Seq<char>>,
    items: Seq<Measured<S>>,
    ranked: Seq<Measured<S>>,
)
    requires
        candidates.len() > 0,
        items.len() > 0,
        is_ranking(items, ranked),
    ensures
        exists|i: int|
            0 <= i < items.len() && (#[trigger] items[i]).url@ == chosen(
                candidates,
                false,
                urls_of(ranked),
            ) && forall|j: int|
                0 <= j < items.len() ==> items[i].score.rank() <= (
                #[trigger] items[j]).score.rank(),
{
    lemma_best_is_first(items, ranked);
    let i = choose|i: int| 0 <= i < items.len() && items[i] == ranked[0];
    assert(urls_of(ranked)[0] == ranked[0].url@);
    assert(items[i].url@ == chosen(candidates, false, urls_of(ranked)));
}

/// What to do next in a selection.
pub enum SelectionStep {
    /// Probe the latency of this source.
    ProbePreferred(String),
    /// Probe each of these sources, as the mode says.
    Survey(Vec<String>),
    /// Nothing: this is the choice.
    Done(SelectionResult),
}

/// What a step comes to.
pub enum StepView {
    ProbePreferred(Seq<char>),
    Survey(Seq<Seq<char>>),
    Done(Seq<char>, Seq<Seq<char>>),
}

impl View for SelectionStep {
    type V = StepView;

    open spec fn view(&self) -> StepView {
        match self {
            SelectionStep::ProbePreferred(url) => StepView::ProbePreferred(url@),
            SelectionStep::Survey(urls) => StepView::Survey(views(urls@)),
            SelectionStep::Done(r) => StepView::Done(r.selected@, views(r.rotation_targets@)),
        }
    }
}

/// A selection under way.
pub struct Selection {
    pub candidates: Vec<String>,
    pub prefer_first: bool,
    pub mode: SelectionMode,
    /// Whether the first candidate was preferred and has answered.
    pub preferred_ok: bool,
}

/// The candidates that are surveyed: all, but for a preferred one that has others behind
/// it.
pub open spec fn pool(candidates: Seq<Seq<char>>, prefer_first: bool) -> Seq<Seq<char>> {
    if prefer_first && candidates.len() > 1 {
        candidates.skip(1)
    } else {
        candidates
    }
}

/// A preferred source that has others behind it is left out of the survey, and nothing else
/// is.
pub proof fn lemma_pool(candidates: Seq<Seq<char>>, prefer_first: bool)
    ensures
        !prefer_first ==> pool(candidates, prefer_first) == candidates,
        candidates.len() <= 1 ==> pool(candidates, prefer_first) == candidates,
        prefer_first && candidates.len() > 1 ==> seq![candidates[0]] + pool(
            candidates,
            prefer_first,
        ) == candidates,
{
    if prefer_first && candidates.len() > 1 {
        assert(seq![candidates[0]] + pool(candidates, prefer_first) =~= candidates);
    }
}

impl Selection {
    /// The addresses of the candidates.
    pub open spec fn urls(self) -> Seq<Seq<char>> {
        views(self.candidates@)
    }

    /// What the survey is, and the line that announces it.
    fn survey(&self) -> (r: (SelectionStep, String))
        requires
            self.candidates@.len() > 0,
        ensures
            r.0@ == StepView::Survey(pool(self.urls(), self.prefer_first)),
            r.1@ == messages::surveying_text(
                self.mode,
                pool(self.urls(), self.prefer_first).len(),
            ),
    {
        let from: usize = if self.prefer_first && self.candidates.len() > 1 {
            1
        } else {
            0
        };
        let urls = copy_from(self.candidates.as_slice(), from);
        assert(views(urls@) =~= pool(self.urls(), self.prefer_first));
        let line = messages::surveying(self.mode, urls.len());
        (SelectionStep::Survey(urls), line)
    }

    /// Begins a selection among `candidates`. With no candidates the default source is the
    /// choice at once; else the first candidate is probed where it is preferred, and the
    /// survey begins where it is not. Gives the lines to report as well.
    pub fn start(candidates: &[String], prefer_first: bool, mode: SelectionMode) -> (r: (
        Selection,
        SelectionStep,
        Vec<String>,
    ))
        ensures
            r.0.candidates@ == candidates@,
            r.0.prefer_first == prefer_first,
            r.0.mode == mode,
            !r.0.preferred_ok,
            candidates@.len() == 0 ==> r.1@ == StepView::Done(
                DEFAULT_TEST_URL@,
                seq![DEFAULT_TEST_URL@],
            ) && views(r.2@) == Seq::<Seq<char>>::empty(),
            candidates@.len() > 0 && prefer_first ==> r.1@ == StepView::ProbePreferred(
                candidates@[0]@,
            ) && views(r.2@) == seq![messages::trying_preferred_text(candidates@[0]@)],
            candidates@.len() > 0 && !prefer_first ==> r.1@ == StepView::Survey(views(candidates@))
                && views(r.2@) == seq![messages::surveying_text(mode, candidates@.len())],
    {
        let mut lines: Vec<String> = Vec::new();
        let own = copy_from(candidates, 0);
        assert(candidates@.skip(0) =~= candidates@);
        let selection = Selection { candidates: own, prefer_first, mode, preferred_ok: false };
        if candidates.len() == 0 {
            let none: Vec<Measured<()>> = Vec::new();
            let result = select_available_url(candidates, false, &none);
            assert(views(lines@) =~= Seq::<Seq<char>>::empty());
            (selection, SelectionStep::Done(result), lines)
        } else if prefer_first {
            let url = candidates[0].clone();
            lines.push(messages::trying_preferred(url.as_str()));
            assert(views(lines@) =~= seq![messages::trying_preferred_text(candidates@[0]@)]);
            (selection, SelectionStep::ProbePreferred(url), lines)
        } else {
            let (step, line) = selection.survey();
            lines.push(line);
            assert(views(lines@) =~= seq![messages::surveying_text(mode, candidates@.len())]);
            (selection, step, lines)
        }
    }

    /// Takes what came of probing the preferred source: how its latency is shown, or why
    /// there is none. The survey is next in both cases.
    pub fn preferred_probed(&mut self, outcome: Result<String, String>) -> (r: (
        SelectionStep,
        Vec<String>,
    ))
        requires
            old(self).candidates@.len() > 0,
        ensures
            final(self).candidates == old(self).candidates,
            final(self).prefer_first == old(self).prefer_first,
            final(self).mode == old(self).mode,
            final(self).preferred_ok == (outcome is Ok),
            r.0@ == StepView::Survey(pool(old(self).urls(), old(self).prefer_first)),
            old(self).prefer_first && old(self).candidates@.len() > 1 ==> r.0@
                == StepView::Survey(views(old(self).candidates@).skip(1)),
            !old(self).prefer_first || old(self).candidates@.len() == 1 ==> r.0@
                == StepView::Survey(views(old(self).candidates@)),
            r.1@.len() == 2,
            views(r.1@) == seq![
                match outcome {
                    Ok(shown) => messages::using_text(
                        SelectionMode::Latency,
                        old(self).urls()[0],
                        shown@,
                    ),
                    Err(err) => messages::preferred_unavailable_text(err@),
                },
                messages::surveying_text(
                    old(self).mode,
                    pool(old(self).urls(), old(self).prefer_first).len(),
                ),
            ],
    {
        let mut lines: Vec<String> = Vec::new();
        match &outcome {
            Ok(shown) => {
                let first = self.candidates[0].as_str();
                lines.push(messages::using(SelectionMode::Latency, first, shown.as_str()));
                self.preferred_ok = true;
            },
            Err(err) => {
                lines.push(messages::preferred_unavailable(err.as_str()));
                self.preferred_ok = false;
            },
        }
        let ghost first_line = lines@[0]@;
        let (step, line) = self.survey();
        lines.push(line);
        assert(views(lines@) =~= seq![first_line, line@]);
        (step, lines)
    }

    /// The lines that report the choice.
    pub open spec fn report<S>(self, ranked: Seq<Measured<S>>) -> Seq<Seq<char>> {
        let count = rotation(self.urls(), self.preferred_ok, urls_of(ranked)).len();
        let choice = if self.preferred_ok {
            seq![]
        } else if ranked.len() > 0 {
            seq![messages::using_text(self.mode, ranked[0].url@, ranked[0].shown@)]
        } else {
            seq![messages::none_available_text()]
        };
        let spread = if count > 1 {
            messages::rotation_active_text(count)
        } else {
            messages::rotation_limited_text()
        };
        choice.push(spread)
    }

    /// Takes the surveyed sources that answered, the best first, and gives the choice, with
    /// the lines to report.
    pub fn finish<S>(&self, ranked: &Vec<Measured<S>>) -> (r: (SelectionResult, Vec<String>))
        requires
            self.candidates@.len() > 0,
        ensures
            r.0.selected@ == chosen(self.urls(), self.preferred_ok, urls_of(ranked@)),
            views(r.0.rotation_targets@) == rotation(
                self.urls(),
                self.preferred_ok,
                urls_of(ranked@),
            ),
            views(r.1@) == self.report(ranked@),
            self.preferred_ok ==> r.0.selected@ == self.candidates@[0]@ && r.1@.len() == 1,
            !self.preferred_ok && ranked@.len() > 0 ==> r.0.selected@ == ranked@[0].url@
                && r.1@.len() == 2 && r.1@[0]@ == "ВЫБОР: используем "@ + ranked@[0].url@ + " ("@
                + ranked@[0].shown@ + " "@ + messages::unit_text(self.mode) + ")"@,
            !self.preferred_ok && ranked@.len() == 0 ==> r.0.selected@ == self.candidates@[0]@
                && r.1@.len() == 2 && r.1@[0]@
                == "ПРЕДУПРЕЖДЕНИЕ: ни один адрес не доступен, используем первый из списка."@,
            r.0.rotation_targets@.len() > 0 && r.0.rotation_targets@[0]@ == r.0.selected@,
            r.0.rotation_targets@.len() > 1 ==> r.1@.last()@
                == "ВЫБОР: ротация активна, источников: "@ + decimal(
                r.0.rotation_targets@.len(),
            ),
            r.0.rotation_targets@.len() <= 1 ==> r.1@.last()@
                == "ВЫБОР: доступен только один источник, ротация ограничена."@,
    {
        let mut lines: Vec<String> = Vec::new();
        let result = select_available_url(self.candidates.as_slice(), self.preferred_ok, ranked);
        if !self.preferred_ok {
            if ranked.len() > 0 {
                let best = &ranked[0];
                lines.push(messages::using(self.mode, best.url.as_str(), best.shown.as_str()));
            } else {
                lines.push(messages::none_available());
            }
        }
        assert(result.rotation_targets@.len() == views(result.rotation_targets@).len());
        let ghost before = views(lines@);
        let spread = if result.rotation_targets.len() > 1 {
            messages::rotation_active(result.rotation_targets.len())
        } else {
            messages::rotation_limited()
        };
        lines.push(spread);
        assert(views(lines@) =~= before.push(spread@));
        assert(views(lines@) =~= self.report(ranked@));
        assert(views(lines@).len() == lines@.len());
        (result, lines)
    }
}

} // verus!
