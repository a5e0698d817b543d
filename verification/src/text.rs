//! Text helpers: trimming, case folding, decimal numerals and concatenation.

use vstd::prelude::*;

verus! {

/// The characters with the Unicode property `White_Space`.
pub open spec fn is_white_space(c: char) -> bool {
    let u = c as int;
    ||| 0x09 <= u <= 0x0d
    ||| u == 0x20
    ||| u == 0x85
    ||| u == 0xa0
    ||| u == 0x1680
    ||| 0x2000 <= u <= 0x200a
    ||| u == 0x2028
    ||| u == 0x2029
    ||| u == 0x202f
    ||| u == 0x205f
    ||| u == 0x3000
}

/// `s` without its leading and trailing white space.
pub open spec fn trimmed(s: Seq<char>) -> Seq<char>
    decreases s.len(),
{
    if s.len() == 0 {
        s
    } else if is_white_space(s.first()) {
        trimmed(s.drop_first())
    } else if is_white_space(s.last()) {
        trimmed(s.drop_last())
    } else {
        s
    }
}

/// What is trimmed has no white space at its ends, so that trimming it again changes
/// nothing.
pub proof fn lemma_trimmed(s: Seq<char>)
    ensures
        trimmed(trimmed(s)) == trimmed(s),
        trimmed(s).len() > 0 ==> !is_white_space(trimmed(s).first()) && !is_white_space(
            trimmed(s).last(),
        ),
    decreases s.len(),
{
    if s.len() > 0 {
        if is_white_space(s.first()) {
            lemma_trimmed(s.drop_first());
        } else if is_white_space(s.last()) {
            lemma_trimmed(s.drop_last());
        }
    }
}

/// Whether `part` is what stands from `i` to `j` in `s`, and all else in `s` meets `pred`.
pub open spec fn cut_out(
    s: Seq<char>,
    i: int,
    j: int,
    part: Seq<char>,
    pred: spec_fn(char) -> bool,
) -> bool {
    &&& 0 <= i <= j <= s.len()
    &&& part == s.subrange(i, j)
    &&& forall|k: int| 0 <= k < s.len() && !(i <= k < j) ==> pred(#[trigger] s[k])
}

/// A part that is cut out stays so where one more character is cut off in front.
proof fn lemma_cut_front(s: Seq<char>, i: int, j: int, part: Seq<char>, pred: spec_fn(char) -> bool)
    requires
        s.len() > 0,
        pred(s.first()),
        cut_out(s.drop_first(), i, j, part, pred),
    ensures
        cut_out(s, i + 1, j + 1, part, pred),
{
    let rest = s.drop_first();
    assert(s.subrange(i + 1, j + 1) =~= rest.subrange(i, j));
    assert forall|k: int| 0 <= k < s.len() && !(i + 1 <= k < j + 1) implies pred(
        #[trigger] s[k],
    ) by {
        if k > 0 {
            assert(rest[k - 1] == s[k]);
        }
    }
}

/// A part that is cut out stays so where one more character is cut off behind.
proof fn lemma_cut_back(s: Seq<char>, i: int, j: int, part: Seq<char>, pred: spec_fn(char) -> bool)
    requires
        s.len() > 0,
        pred(s.last()),
        cut_out(s.drop_last(), i, j, part, pred),
    ensures
        cut_out(s, i, j, part, pred),
{
    let rest = s.drop_last();
    assert(s.subrange(i, j) =~= rest.subrange(i, j));
    assert forall|k: int| 0 <= k < s.len() && !(i <= k < j) implies pred(#[trigger] s[k]) by {
        if k < rest.len() {
            assert(rest[k] == s[k]);
        }
    }
}

/// What is trimmed is a part of the text, from one place to another, and all that is cut off
/// is white space.
pub proof fn lemma_trimmed_part(s: Seq<char>) -> (r: (int, int))
    ensures
        cut_out(s, r.0, r.1, trimmed(s), |c: char| is_white_space(c)),
    decreases s.len(),
{
    let pred = |c: char| is_white_space(c);
    if s.len() == 0 {
        assert(s =~= s.subrange(0, 0));
        (0, 0)
    } else if pred(s.first()) {
        let (i, j) = lemma_trimmed_part(s.drop_first());
        lemma_cut_front(s, i, j, trimmed(s), pred);
        (i + 1, j + 1)
    } else if pred(s.last()) {
        let (i, j) = lemma_trimmed_part(s.drop_last());
        lemma_cut_back(s, i, j, trimmed(s), pred);
        (i, j)
    } else {
        assert(s.subrange(0, s.len() as int) =~= s);
        (0, s.len() as int)
    }
}

/// `A` to `Z` mapped to `a` to `z`; every other character stays.
pub open spec fn ascii_lower(c: char) -> char {
    if 'A' <= c <= 'Z' {
        ((c as int) + 32) as char
    } else {
        c
    }
}

/// `str::trim` removes leading and trailing white space, as the Unicode property
/// `White_Space` defines it, and keeps everything between.
pub assume_specification[ str::trim ](s: &str) -> (r: &str)
    ensures
        r@ == trimmed(s@),
;

/// `str::to_ascii_lowercase` maps the ASCII letters `A` to `Z` to `a` to `z` and
/// leaves all other characters unchanged.
pub assume_specification[ str::to_ascii_lowercase ](s: &str) -> (r: String)
    ensures
        r@ == s@.map_values(|c: char| ascii_lower(c)),
;

/// The decimal digit `d` as a character.
pub open spec fn digit_char(d: nat) -> char {
    (48 + d) as char
}

/// The decimal numeral of `n`, without leading zeros.
pub open spec fn decimal(n: nat) -> Seq<char>
    decreases n,
{
    if n < 10 {
        seq![digit_char(n)]
    } else {
        decimal(n / 10).push(digit_char(n % 10))
    }
}

/// The views of a sequence of strings.
pub open spec fn views(s: Seq<String>) -> Seq<Seq<char>> {
    s.map_values(|t: String| t@)
}

/// The decimal digit `d` as text.
fn digit_text(d: u128) -> (r: &'static str)
    requires
        d < 10,
    ensures
        r@ == seq![digit_char(d as nat)],
{
    proof {
        reveal_strlit("0");
        reveal_strlit("1");
        reveal_strlit("2");
        reveal_strlit("3");
        reveal_strlit("4");
        reveal_strlit("5");
        reveal_strlit("6");
        reveal_strlit("7");
        reveal_strlit("8");
        reveal_strlit("9");
    }
    let r = if d == 0 {
        "0"
    } else if d == 1 {
        "1"
    } else if d == 2 {
        "2"
    } else if d == 3 {
        "3"
    } else if d == 4 {
        "4"
    } else if d == 5 {
        "5"
    } else if d == 6 {
        "6"
    } else if d == 7 {
        "7"
    } else if d == 8 {
        "8"
    } else {
        "9"
    };
    assert(r@ =~= seq![digit_char(d as nat)]);
    r
}

/// The decimal numeral of `n`.
pub fn decimal_text(n: u128) -> (r: String)
    ensures
        r@ == decimal(n as nat),
    decreases n,
{
    if n < 10 {
        digit_text(n).to_string()
    } else {
        let mut r = decimal_text(n / 10);
        r.append(digit_text(n % 10));
        assert(r@ =~= decimal((n / 10) as nat).push(digit_char((n % 10) as nat)));
        r
    }
}

/// Whether `s` holds the character `wanted`.
pub fn contains_char(s: &str, wanted: char) -> (r: bool)
    ensures
        r == s@.contains(wanted),
{
    for c in it: s.chars()
        invariant
            it.seq() == s@,
            forall|i: int| 0 <= i < it.index() ==> s@[i] != wanted,
    {
        if c == wanted {
            return true;
        }
    }
    false
}

/// Whether `s` begins with `prefix`.
pub fn begins_with(s: &str, prefix: &str) -> (r: bool)
    ensures
        r == prefix@.is_prefix_of(s@),
{
    let n = prefix.unicode_len();
    if s.unicode_len() < n {
        return false;
    }
    for i in 0..n
        invariant
            n == prefix@.len(),
            n <= s@.len(),
            forall|j: int| 0 <= j < i ==> prefix@[j] == s@[j],
    {
        if s.get_char(i) != prefix.get_char(i) {
            assert(prefix@[i as int] != s@.subrange(0, n as int)[i as int]);
            return false;
        }
    }
    assert(prefix@ =~= s@.subrange(0, n as int));
    true
}

/// A numeral, digit by digit: below ten it is one digit, the one that stands that far behind
/// `0`; from ten on it is the numeral of the tens with the digit of the ones behind it.
pub proof fn lemma_decimal_digits_of(n: nat)
    ensures
        n < 10 ==> decimal(n).len() == 1 && decimal(n)[0] as int == '0' as int + n,
        n >= 10 ==> decimal(n).drop_last() == decimal(n / 10) && decimal(n).last() as int
            == '0' as int + n % 10,
{
    if n >= 10 {
        assert(decimal(n).drop_last() =~= decimal(n / 10));
    }
}

} // verus!
