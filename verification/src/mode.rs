//! How a source is chosen.

use vstd::prelude::*;

use crate::text::ascii_lower;
use crate::text::trimmed;

verus! {

/// What the best source is the best in.
#[derive(Clone, Copy, Debug, PartialEq, Eq, Structural)]
pub enum SelectionMode {
    Latency,
    Throughput,
}

/// A word as it is looked up: trimmed, with its ASCII letters in lower case.
pub open spec fn folded(s: Seq<char>) -> Seq<char> {
    trimmed(s).map_values(|c: char| ascii_lower(c))
}

/// Whether a folded word names the choice by throughput.
pub open spec fn names_throughput(word: Seq<char>) -> bool {
    ||| word == "throughput"@
    ||| word == "пропускная способность"@
    ||| word == "скорость"@
}

impl SelectionMode {
    /// The name of a mode.
    pub open spec fn name(self) -> Seq<char> {
        match self {
            SelectionMode::Latency => "latency"@,
            SelectionMode::Throughput => "throughput"@,
        }
    }

    /// The mode that a word names.
    pub open spec fn named(word: Seq<char>) -> SelectionMode {
        if names_throughput(folded(word)) {
            SelectionMode::Throughput
        } else {
            SelectionMode::Latency
        }
    }

    /// The name of this mode.
    pub fn as_str(self) -> (r: &'static str)
        ensures
            r@ == self.name(),
            self == SelectionMode::Latency ==> r@ == "latency"@,
            self == SelectionMode::Throughput ==> r@ == "throughput"@,
    {
        match self {
            SelectionMode::Latency => "latency",
            SelectionMode::Throughput => "throughput",
        }
    }

    /// The mode that `value` names: by throughput for one of its three names, whatever
    /// the case of ASCII letters and the white space around it, and by latency for
    /// everything else.
    pub fn from_str(value: &str) -> (r: SelectionMode)
        ensures
            r == SelectionMode::named(value@),
            r == SelectionMode::Throughput <==> {
                let word = trimmed(value@).map_values(|c: char| ascii_lower(c));
                word == "throughput"@ || word == "пропускная способность"@ || word == "скорость"@
            },
    {
        let word = value.trim().to_ascii_lowercase();
        if word == "throughput".to_string() || word == "пропускная способность".to_string()
            || word == "скорость".to_string() {
            SelectionMode::Throughput
        } else {
            SelectionMode::Latency
        }
    }
}

/// A mode is the one that its name names.
pub proof fn lemma_name_round_trip(mode: SelectionMode)
    ensures
        SelectionMode::named(mode.name()) == mode,
{
    reveal_strlit("latency");
    reveal_strlit("throughput");
    reveal_strlit("пропускная способность");
    reveal_strlit("скорость");
    let name = mode.name();
    assert(trimmed(name) == name);
    assert(folded(name) =~= name);
    assert("latency"@.len() == 7 && "throughput"@.len() == 10);
    assert("скорость"@.len() == 8 && "пропускная способность"@.len() == 22);
}

/// White space around a word does not matter.
pub proof fn lemma_padding_ignored(word: Seq<char>)
    ensures
        SelectionMode::named(trimmed(word)) == SelectionMode::named(word),
{
    crate::text::lemma_trimmed(word);
}

/// A word asks for the choice by throughput exactly where, without the white space round it
/// and with its ASCII letters in lower case, it is one of three words. Any other word asks
/// for the choice by latency.
pub proof fn lemma_words(word: Seq<char>)
    ensures
        SelectionMode::named(word) == SelectionMode::Throughput <==> {
            let plain = trimmed(word).map_values(|c: char| ascii_lower(c));
            plain == "throughput"@ || plain == "пропускная способность"@ || plain == "скорость"@
        },
        forall|c: char| 'A' <= c <= 'Z' ==> #[trigger] ascii_lower(c) as int == c as int + 32,
        forall|c: char| !('A' <= c <= 'Z') ==> #[trigger] ascii_lower(c) == c,
{
}

} // verus!
