//! Request addresses: each carries the worker and a running number, so that no cache
//! on the way can answer it.

use vstd::prelude::*;

use crate::text::contains_char;
use crate::text::decimal;
use crate::text::decimal_text;
use crate::text::digit_char;

verus! {

/// What joins a query parameter to `url`.
pub open spec fn separator(url: Seq<char>) -> Seq<char> {
    if url.contains('?') {
        "&"@
    } else {
        "?"@
    }
}

/// `url` with the worker and the request number as its last query parameters.
pub open spec fn cache_busted(url: Seq<char>, worker: nat, seq: nat) -> Seq<char> {
    url + separator(url) + "ac_worker="@ + decimal(worker) + "&ac_seq="@ + decimal(seq)
}

/// The address for request number `seq` of worker `worker` to `url`.
pub fn with_cache_buster(url: &str, worker: usize, seq: u64) -> (r: String)
    ensures
        r@ == cache_busted(url@, worker as nat, seq as nat),
        url@.contains('?') ==> r@ == url@ + "&ac_worker="@ + decimal(worker as nat) + "&ac_seq="@
            + decimal(seq as nat),
        !url@.contains('?') ==> r@ == url@ + "?ac_worker="@ + decimal(worker as nat) + "&ac_seq="@
            + decimal(seq as nat),
{
    let mut r = url.to_string();
    if contains_char(url, '?') {
        r.append("&");
    } else {
        r.append("?");
    }
    r.append("ac_worker=");
    r.append(decimal_text(worker as u128).as_str());
    r.append("&ac_seq=");
    r.append(decimal_text(seq as u128).as_str());
    proof {
        reveal_strlit("&");
        reveal_strlit("?");
        reveal_strlit("ac_worker=");
        reveal_strlit("&ac_worker=");
        reveal_strlit("?ac_worker=");
        assert(url@ + "&"@ + "ac_worker="@ =~= url@ + "&ac_worker="@);
        assert(url@ + "?"@ + "ac_worker="@ =~= url@ + "?ac_worker="@);
    }
    r
}

/// Whether `c` is a decimal digit.
pub open spec fn is_digit(c: char) -> bool {
    '0' <= c <= '9'
}

/// A numeral is made of digits only, and is never empty.
proof fn lemma_decimal_digits(n: nat)
    ensures
        decimal(n).len() > 0,
        forall|i: int| 0 <= i < decimal(n).len() ==> is_digit(#[trigger] decimal(n)[i]),
    decreases n,
{
    if n >= 10 {
        lemma_decimal_digits(n / 10);
    }
}

/// Different numbers have different numerals.
pub proof fn lemma_decimal_injective(m: nat, n: nat)
    ensures
        decimal(m) == decimal(n) ==> m == n,
    decreases m,
{
    if decimal(m) == decimal(n) {
        lemma_decimal_digits(m / 10);
        lemma_decimal_digits(n / 10);
        if m < 10 || n < 10 {
            assert(decimal(m).len() == decimal(n).len());
            assert(m < 10 && n < 10);
            assert(digit_char(m) == decimal(m)[0] && digit_char(n) == decimal(n)[0]);
        } else {
            assert(decimal(m).drop_last() =~= decimal(m / 10));
            assert(decimal(n).drop_last() =~= decimal(n / 10));
            lemma_decimal_injective(m / 10, n / 10);
            assert(decimal(m).last() == digit_char(m % 10));
            assert(decimal(n).last() == digit_char(n % 10));
        }
    }
}

/// Where a text ends in digits behind a character that is none, it can be split there
/// in one way only.
proof fn lemma_trailing_digits(a: Seq<char>, d: Seq<char>, b: Seq<char>, e: Seq<char>)
    requires
        a + d == b + e,
        a.len() > 0,
        b.len() > 0,
        !is_digit(a.last()),
        !is_digit(b.last()),
        forall|i: int| 0 <= i < d.len() ==> is_digit(#[trigger] d[i]),
        forall|i: int| 0 <= i < e.len() ==> is_digit(#[trigger] e[i]),
    ensures
        a == b,
        d == e,
{
    let s = a + d;
    assert(s.len() == a.len() + d.len() && s.len() == b.len() + e.len());
    if a.len() < b.len() {
        assert(s[b.len() - 1] == b.last());
        assert(s[b.len() - 1] == d[b.len() - 1 - a.len()]);
    }
    if b.len() < a.len() {
        assert(s[a.len() - 1] == a.last());
        assert((b + e)[a.len() - 1] == e[a.len() - 1 - b.len()]);
    }
    assert(a =~= s.take(a.len() as int));
    assert(b =~= (b + e).take(b.len() as int));
    assert(d =~= s.skip(a.len() as int));
    assert(e =~= (b + e).skip(b.len() as int));
}

/// No two requests share an address: a different source, worker or request number gives
/// a different one.
pub proof fn lemma_addresses_differ(
    url1: Seq<char>,
    worker1: nat,
    seq1: nat,
    url2: Seq<char>,
    worker2: nat,
    seq2: nat,
)
    requires
        cache_busted(url1, worker1, seq1) == cache_busted(url2, worker2, seq2),
    ensures
        url1 == url2,
        worker1 == worker2,
        seq1 == seq2,
{
    reveal_strlit("&");
    reveal_strlit("?");
    reveal_strlit("ac_worker=");
    reveal_strlit("&ac_seq=");
    let a1 = url1 + separator(url1) + "ac_worker="@;
    let a2 = url2 + separator(url2) + "ac_worker="@;
    let b1 = a1 + decimal(worker1) + "&ac_seq="@;
    let b2 = a2 + decimal(worker2) + "&ac_seq="@;
    lemma_decimal_digits(worker1);
    lemma_decimal_digits(worker2);
    lemma_decimal_digits(seq1);
    lemma_decimal_digits(seq2);
    assert(b1.last() == '=' && b2.last() == '=');
    lemma_trailing_digits(b1, decimal(seq1), b2, decimal(seq2));
    lemma_decimal_injective(seq1, seq2);
    let n: int = "&ac_seq="@.len() as int;
    assert(a1 + decimal(worker1) =~= b1.take(b1.len() - n));
    assert(a2 + decimal(worker2) =~= b2.take(b2.len() - n));
    assert(a1.last() == '=' && a2.last() == '=');
    lemma_trailing_digits(a1, decimal(worker1), a2, decimal(worker2));
    lemma_decimal_injective(worker1, worker2);
    let k: int = "ac_worker="@.len() as int + 1;
    assert(url1 =~= a1.take(a1.len() - k));
    assert(url2 =~= a2.take(a2.len() - k));
}

/// A request address is the source address with a query behind it: the source address stands
/// in front; right behind it stands `?` where the source address has no query yet and `&`
/// where it has one; and so there is a `?`, and all before the first one is the source address
/// up to its own first `?`.
pub proof fn lemma_query(url: Seq<char>, worker: nat, seq: nat)
    ensures
        url.is_prefix_of(cache_busted(url, worker, seq)),
        cache_busted(url, worker, seq).len() > url.len(),
        !url.contains('?') ==> cache_busted(url, worker, seq)[url.len() as int] == '?',
        url.contains('?') ==> cache_busted(url, worker, seq)[url.len() as int] == '&',
        cache_busted(url, worker, seq).contains('?'),
        forall|i: int|
            0 <= i < cache_busted(url, worker, seq).len() && #[trigger] cache_busted(
                url,
                worker,
                seq,
            )[i] == '?' && (forall|j: int|
                0 <= j < i ==> #[trigger] cache_busted(url, worker, seq)[j] != '?') ==> i
                <= url.len() && cache_busted(url, worker, seq).take(i) == url.take(i) && (i
                < url.len() ==> url[i] == '?') && (i == url.len() ==> !url.contains('?')),
        cache_busted(url, worker, seq).skip(url.len() as int + 1) == "ac_worker="@ + decimal(worker)
            + "&ac_seq="@ + decimal(seq),
{
    reveal_strlit("&");
    reveal_strlit("?");
    reveal_strlit("ac_worker=");
    let r = cache_busted(url, worker, seq);
    let n = url.len() as int;
    assert(r.subrange(0, n) =~= url);
    assert(r[n] == separator(url)[0]);
    assert(forall|i: int| 0 <= i < n ==> r[i] == url[i]);
    if url.contains('?') {
        let i = choose|i: int| 0 <= i < n && url[i] == '?';
        assert(r[i] == '?');
    } else {
        assert(r[n] == '?');
    }
    assert forall|i: int| 0 <= i < r.len() && #[trigger] r[i] == '?' && (forall|j: int|
        0 <= j < i ==> #[trigger] r[j] != '?') implies i <= n && r.take(i) == url.take(i) && (i < n
        ==> url[i] == '?') && (i == n ==> !url.contains('?')) by {
        if url.contains('?') {
            let k = choose|k: int| 0 <= k < n && url[k] == '?';
            assert(r[k] == '?');
            assert(i <= k);
        } else {
            assert(r[n] == '?');
            assert(i <= n);
        }
        assert(r.take(i) =~= url.take(i));
    }
    assert(r.skip(n + 1) =~= "ac_worker="@ + decimal(worker) + "&ac_seq="@ + decimal(seq));
}

} // verus!
