//! Download sources: the built-in list, the candidates that are tried and the order in
//! which they are kept.

use vstd::prelude::*;

use crate::text::views;

verus! {

/// The source used where nothing else is given.
pub const DEFAULT_TEST_URL: &'static str = "https://speedtest.selectel.ru/100MB";

/// The built-in sources, in the order in which they are tried.
pub const DEFAULT_TEST_URLS: [&'static str; 8] = [
    "https://speedtest.selectel.ru/100MB",
    "https://fsn1-speed.hetzner.com/100MB.bin",
    "https://hel1-speed.hetzner.com/100MB.bin",
    "https://ash-speed.hetzner.com/100MB.bin",
    "https://hil-speed.hetzner.com/100MB.bin",
    "https://speed.af.de/files/100MB.bin",
    "https://us.speedtest.hostiserver.com/100MB",
    "https://eu.speedtest.hostiserver.com/100MB",
];

/// The built-in sources as text.
pub open spec fn default_urls() -> Seq<Seq<char>> {
    DEFAULT_TEST_URLS@.map_values(|u: &'static str| u@)
}

/// `s` with every item dropped that stands earlier in `s` as well.
pub open spec fn first_occurrences<A>(s: Seq<A>) -> Seq<A>
    decreases s.len(),
{
    if s.len() == 0 {
        s
    } else {
        let front = first_occurrences(s.drop_last());
        if s.drop_last().contains(s.last()) {
            front
        } else {
            front.push(s.last())
        }
    }
}

/// Whether `x` stands in `s` before every `y`.
pub open spec fn precedes<A>(s: Seq<A>, x: A, y: A) -> bool {
    exists|p: int|
        0 <= p < s.len() && #[trigger] s[p] == x && forall|q: int| 0 <= q <= p ==> s[q] != y
}

/// `first_occurrences` keeps the items of `s`, each once, in the order in which they first
/// stand there, and so the first item first.
pub proof fn lemma_first_occurrences<A>(s: Seq<A>)
    ensures
        forall|i: int, j: int|
            0 <= i < j < first_occurrences(s).len() ==> precedes(
                s,
                #[trigger] first_occurrences(s)[i],
                #[trigger] first_occurrences(s)[j],
            ),
        first_occurrences(s).no_duplicates(),
        forall|x: A| first_occurrences(s).contains(x) <==> s.contains(x),
        s.len() > 0 ==> first_occurrences(s).len() > 0 && first_occurrences(s).first() == s.first(),
        first_occurrences(s).len() <= s.len(),
    decreases s.len(),
{
    if s.len() > 0 {
        let front = s.drop_last();
        lemma_first_occurrences(front);
        let kept = first_occurrences(front);
        let all = first_occurrences(s);
        assert forall|x: A| all.contains(x) <==> s.contains(x) by {
            if s.contains(x) {
                let i = choose|i: int| 0 <= i < s.len() && s[i] == x;
                if i < front.len() {
                    assert(front[i] == x);
                    assert(front.contains(x));
                    assert(kept.contains(x));
                    let j = choose|j: int| 0 <= j < kept.len() && kept[j] == x;
                    assert(all[j] == x);
                } else if front.contains(x) {
                    assert(kept.contains(x));
                } else {
                    assert(all[all.len() - 1] == x);
                }
            }
            if all.contains(x) {
                let j = choose|j: int| 0 <= j < all.len() && all[j] == x;
                if j < kept.len() {
                    assert(kept[j] == x);
                    assert(front.contains(x));
                    let i = choose|i: int| 0 <= i < front.len() && front[i] == x;
                    assert(s[i] == x);
                } else {
                    assert(s[s.len() - 1] == x);
                }
            }
        }
        if !front.contains(s.last()) {
            assert(!kept.contains(s.last()));
        }
        assert forall|i: int, j: int| 0 <= i < j < all.len() implies precedes(
            s,
            #[trigger] all[i],
            #[trigger] all[j],
        ) by {
            let (x, y) = (all[i], all[j]);
            assert(kept[i] == x);
            if j < kept.len() {
                assert(kept[j] == y);
                assert(precedes(front, x, y));
                let p = choose|p: int|
                    0 <= p < front.len() && #[trigger] front[p] == x && forall|q: int|
                        0 <= q <= p ==> front[q] != y;
                assert(s[p] == x);
                assert forall|q: int| 0 <= q <= p implies s[q] != y by {
                    assert(front[q] != y);
                }
            } else {
                assert(kept.contains(x));
                assert(front.contains(x));
                let p = choose|p: int| 0 <= p < front.len() && front[p] == x;
                assert(s[p] == x);
                assert forall|q: int| 0 <= q <= p implies s[q] != y by {
                    if s[q] == y {
                        assert(front[q] == y);
                    }
                }
            }
        }
    }
}

/// Whether `list` holds `url`.
pub(crate) fn holds(list: &Vec<String>, url: &String) -> (r: bool)
    ensures
        r == views(list@).contains(url@),
{
    for i in 0..list.len()
        invariant
            forall|j: int| 0 <= j < i ==> list@[j]@ != url@,
    {
        if list[i] == *url {
            assert(views(list@)[i as int] == url@);
            return true;
        }
    }
    false
}

/// The items of `list` from index `from` on.
pub(crate) fn copy_from(list: &[String], from: usize) -> (r: Vec<String>)
    requires
        from <= list@.len(),
    ensures
        r@ == list@.skip(from as int),
{
    let mut r: Vec<String> = Vec::new();
    for i in from..list.len()
        invariant
            from <= i <= list@.len(),
            r@ == list@.subrange(from as int, i as int),
    {
        r.push(list[i].clone());
        assert(r@ =~= list@.subrange(from as int, i + 1));
    }
    assert(list@.subrange(from as int, list@.len() as int) =~= list@.skip(from as int));
    r
}

/// The sources given, or the default source where none is.
pub open spec fn or_default(targets: Seq<Seq<char>>) -> Seq<Seq<char>> {
    if targets.len() == 0 {
        seq![DEFAULT_TEST_URL@]
    } else {
        targets
    }
}

/// The sources given, or the default source where none is.
pub(crate) fn targets_or_default(targets: &[String]) -> (r: Vec<String>)
    ensures
        views(r@) == or_default(views(targets@)),
        r@.len() > 0,
        targets@.len() > 0 ==> r@ == targets@,
        targets@.len() == 0 ==> r@.len() == 1 && r@[0]@ == "https://speedtest.selectel.ru/100MB"@,
{
    if targets.len() == 0 {
        let mut own: Vec<String> = Vec::new();
        own.push(DEFAULT_TEST_URL.to_string());
        assert(views(own@) =~= seq![DEFAULT_TEST_URL@]);
        own
    } else {
        assert(targets@.skip(0) =~= targets@);
        copy_from(targets, 0)
    }
}

/// Adds `url` to `list`, unless `list` holds it.
pub(crate) fn push_new(list: &mut Vec<String>, url: String)
    ensures
        views(final(list)@) == if views(old(list)@).contains(url@) {
            views(old(list)@)
        } else {
            views(old(list)@).push(url@)
        },
{
    if !holds(list, &url) {
        list.push(url);
        assert(views(list@) =~= views(old(list)@).push(url@));
    }
}

/// The preferred source as one candidate, where it is given and not blank.
pub open spec fn preference(preferred: Option<&str>) -> Seq<Seq<char>> {
    match preferred {
        Some(url) => if crate::text::trimmed(url@).len() == 0 {
            seq![]
        } else {
            seq![crate::text::trimmed(url@)]
        },
        None => seq![],
    }
}

/// The candidates for a preferred source: that source first, then the built-in ones,
/// none twice.
pub open spec fn candidate_urls(preferred: Option<&str>) -> Seq<Seq<char>> {
    first_occurrences(preference(preferred) + default_urls())
}

/// The sources to try: the preferred one, trimmed, where it is given and not blank, and
/// then each built-in one that is not the preferred one.
pub fn build_candidate_urls(preferred: Option<&str>) -> (out: Vec<String>)
    ensures
        views(out@) == candidate_urls(preferred),
{
    let mut out: Vec<String> = Vec::new();
    let ghost pref = preference(preferred);
    if let Some(url) = preferred {
        let trimmed = url.trim();
        if !trimmed.is_empty() {
            out.push(trimmed.to_string());
        }
    }
    proof {
        assert(views(out@) =~= pref);
        reveal_with_fuel(first_occurrences, 2);
        assert(first_occurrences(pref) =~= pref);
        assert(pref + default_urls().take(0) =~= pref);
    }
    for i in 0..DEFAULT_TEST_URLS.len()
        invariant
            views(out@) == first_occurrences(pref + default_urls().take(i as int)),
    {
        let url = DEFAULT_TEST_URLS[i].to_string();
        proof {
            let next = pref + default_urls().take(i + 1);
            assert(next.drop_last() =~= pref + default_urls().take(i as int));
            assert(next.last() == url@);
            lemma_first_occurrences(pref + default_urls().take(i as int));
        }
        push_new(&mut out, url);
    }
    proof {
        assert(default_urls().take(DEFAULT_TEST_URLS.len() as int) =~= default_urls());
    }
    out
}

/// Of a sequence without duplicates every item is kept.
pub proof fn lemma_distinct_stays<A>(s: Seq<A>)
    requires
        s.no_duplicates(),
    ensures
        first_occurrences(s) == s,
    decreases s.len(),
{
    if s.len() > 0 {
        let front = s.drop_last();
        lemma_distinct_stays(front);
        if front.contains(s.last()) {
            let i = choose|i: int| 0 <= i < front.len() && front[i] == s.last();
            assert(s[i] == s[s.len() - 1]);
        }
        assert(first_occurrences(s) =~= s);
    }
}

/// The built-in list names no source twice, and starts with the default source.
pub proof fn lemma_default_urls_distinct()
    ensures
        default_urls().no_duplicates(),
        default_urls().len() == 8,
        default_urls().first() == DEFAULT_TEST_URL@,
        default_urls() == seq![
            "https://speedtest.selectel.ru/100MB"@,
            "https://fsn1-speed.hetzner.com/100MB.bin"@,
            "https://hel1-speed.hetzner.com/100MB.bin"@,
            "https://ash-speed.hetzner.com/100MB.bin"@,
            "https://hil-speed.hetzner.com/100MB.bin"@,
            "https://speed.af.de/files/100MB.bin"@,
            "https://us.speedtest.hostiserver.com/100MB"@,
            "https://eu.speedtest.hostiserver.com/100MB"@,
        ],
{
    reveal_strlit("https://speedtest.selectel.ru/100MB");
    reveal_strlit("https://fsn1-speed.hetzner.com/100MB.bin");
    reveal_strlit("https://hel1-speed.hetzner.com/100MB.bin");
    reveal_strlit("https://ash-speed.hetzner.com/100MB.bin");
    reveal_strlit("https://hil-speed.hetzner.com/100MB.bin");
    reveal_strlit("https://speed.af.de/files/100MB.bin");
    reveal_strlit("https://us.speedtest.hostiserver.com/100MB");
    reveal_strlit("https://eu.speedtest.hostiserver.com/100MB");
    let d = default_urls();
    // The first characters after the scheme tell all but these pairs apart.
    assert(d[0][8] == 's' && d[0][9] == 'p' && d[0].len() == 35);
    assert(d[1][8] == 'f');
    assert(d[2][8] == 'h' && d[2][9] == 'e');
    assert(d[3][8] == 'a');
    assert(d[4][8] == 'h' && d[4][9] == 'i');
    assert(d[5][8] == 's' && d[5][9] == 'p' && d[5][13] == '.');
    assert(d[0][13] == 't');
    assert(d[6][8] == 'u');
    assert(d[7][8] == 'e');
}

/// The candidates hold every built-in source and no source twice; there is always one;
/// and the first is the preferred source where one is given, else the default source.
pub proof fn lemma_candidates(preferred: Option<&str>)
    ensures
        candidate_urls(preferred).no_duplicates(),
        candidate_urls(preferred).len() > 0,
        forall|url: Seq<char>|
            candidate_urls(preferred).contains(url) <==> preference(preferred).contains(url)
                || default_urls().contains(url),
        candidate_urls(preferred).first() == if preference(preferred).len() > 0 {
            preference(preferred).first()
        } else {
            DEFAULT_TEST_URL@
        },
{
    let pref = preference(preferred);
    let all = pref + default_urls();
    lemma_default_urls_distinct();
    lemma_first_occurrences(all);
    assert forall|url: Seq<char>| all.contains(url) <==> pref.contains(url)
        || default_urls().contains(url) by {
        if pref.contains(url) {
            let i = choose|i: int| 0 <= i < pref.len() && pref[i] == url;
            assert(all[i] == url);
        }
        if default_urls().contains(url) {
            let i = choose|i: int| 0 <= i < default_urls().len() && default_urls()[i] == url;
            assert(all[pref.len() + i] == url);
        }
        if all.contains(url) {
            let i = choose|i: int| 0 <= i < all.len() && all[i] == url;
            if i < pref.len() {
                assert(pref[i] == url);
            } else {
                assert(default_urls()[i - pref.len()] == url);
            }
        }
    }
}

/// Without a preferred source the candidates are the built-in list as it stands; with
/// one that is not built in, that source and then the built-in list as it stands.
pub proof fn lemma_candidates_order(preferred: Option<&str>)
    requires
        forall|i: int|
            0 <= i < preference(preferred).len() ==> !default_urls().contains(
                #[trigger] preference(preferred)[i],
            ),
    ensures
        candidate_urls(preferred) == preference(preferred) + default_urls(),
{
    lemma_default_urls_distinct();
    let pref = preference(preferred);
    let all = pref + default_urls();
    assert(all.no_duplicates()) by {
        assert forall|i: int, j: int| 0 <= i < j < all.len() implies all[i] != all[j] by {
            if i < pref.len() {
                assert(!default_urls().contains(pref[i]));
                assert(default_urls()[j - pref.len()] == all[j]);
            }
        }
    }
    lemma_distinct_stays(all);
}

/// The candidates, item by item. Where no source is preferred, or a blank one, they are the
/// built-in list. Else the preferred source, trimmed, stands first, and behind it the
/// built-in list, without that source where it is built in.
pub proof fn lemma_candidate_list(preferred: Option<&str>)
    ensures
        preferred is None ==> candidate_urls(preferred) == default_urls(),
        preferred matches Some(url) ==> {
            let wanted = crate::text::trimmed(url@);
            &&& wanted.len() == 0 ==> candidate_urls(preferred) == default_urls()
            &&& wanted.len() > 0 && !default_urls().contains(wanted) ==> candidate_urls(preferred)
                == seq![wanted] + default_urls()
            &&& forall|k: int|
                0 <= k < default_urls().len() && wanted.len() > 0 && #[trigger] default_urls()[k]
                    == wanted ==> candidate_urls(preferred) == seq![wanted]
                    + default_urls().remove(k)
        },
{
    lemma_default_urls_distinct();
    let d = default_urls();
    match preferred {
        None => {
            lemma_candidates_order(preferred);
            assert(preference(preferred) + d =~= d);
        },
        Some(url) => {
            let wanted = crate::text::trimmed(url@);
            if wanted.len() == 0 {
                lemma_candidates_order(preferred);
                assert(preference(preferred) + d =~= d);
            } else if !d.contains(wanted) {
                lemma_candidates_order(preferred);
            } else {
                assert forall|k: int| 0 <= k < d.len() && #[trigger] d[k]
                    == wanted implies candidate_urls(preferred) == seq![wanted] + d.remove(k) by {
                    lemma_repeat_dropped(wanted, d, k);
                }
            }
        },
    }
}

/// An item put in front of a list without duplicates that holds it at `k` drops it there.
proof fn lemma_repeat_dropped<A>(x: A, d: Seq<A>, k: int)
    requires
        d.no_duplicates(),
        0 <= k < d.len(),
        d[k] == x,
    ensures
        first_occurrences(seq![x] + d) == seq![x] + d.remove(k),
    decreases d.len(),
{
    let all = seq![x] + d;
    let front = d.drop_last();
    assert(all.drop_last() =~= seq![x] + front);
    assert(all.last() == d.last());
    if k == d.len() - 1 {
        assert(seq![x].no_duplicates());
        assert((seq![x] + front).no_duplicates()) by {
            assert forall|i: int, j: int| 0 <= i < j < (seq![x] + front).len() implies (seq![x]
                + front)[i] != (seq![x] + front)[j] by {
                assert((seq![x] + front)[j] == d[j - 1]);
                if i > 0 {
                    assert((seq![x] + front)[i] == d[i - 1]);
                }
            }
        }
        lemma_distinct_stays(seq![x] + front);
        assert((seq![x] + front)[0] == x);
        assert(all.drop_last().contains(x));
        assert(d.remove(k) =~= front);
    } else {
        assert(front.no_duplicates());
        lemma_repeat_dropped(x, front, k);
        assert(!all.drop_last().contains(d.last())) by {
            if all.drop_last().contains(d.last()) {
                let i = choose|i: int|
                    0 <= i < all.drop_last().len() && all.drop_last()[i] == d.last();
                if i == 0 {
                    assert(d[k] == d[d.len() - 1]);
                } else {
                    assert(d[i - 1] == d[d.len() - 1]);
                }
            }
        }
        assert(seq![x] + d.remove(k) =~= (seq![x] + front.remove(k)).push(d.last()));
    }
}

} // verus!
