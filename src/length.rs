//! The minimum-length filter: a text reaches the detector only when it holds
//! enough alphabetic characters.
use vstd::prelude::*;

verus! {

/// Whether `c` has the Unicode `Alphabetic` property.
pub uninterp spec fn alphabetic(c: char) -> bool;

/// Relies on `char::is_alphabetic`: true exactly for characters with the
/// Unicode `Alphabetic` property.
#[verifier::external_body]
fn is_alphabetic(c: char) -> (r: bool)
    ensures
        r == alphabetic(c),
{
    c.is_alphabetic()
}

/// Number of alphabetic characters in `s`.
pub open spec fn alpha_count(s: Seq<char>) -> nat
    decreases s.len(),
{
    if s.len() == 0 {
        0
    } else {
        alpha_count(s.drop_last()) + if alphabetic(s.last()) {
            1nat
        } else {
            0nat
        }
    }
}

/// The filter's decision on a text with the given character sequence.
pub open spec fn passes_spec(text: Seq<char>, min_length: Option<u8>) -> bool {
    match min_length {
        None => true,
        Some(m) => alpha_count(text) >= m as nat,
    }
}

proof fn lemma_alpha_count_le(s: Seq<char>)
    ensures
        alpha_count(s) <= s.len(),
    decreases s.len(),
{
    if s.len() > 0 {
        lemma_alpha_count_le(s.drop_last());
    }
}

/// Counts the alphabetic characters of `text`.
pub fn alphabetic_count(text: &str) -> (r: usize)
    ensures
        r as nat == alpha_count(text@),
{
    let n = text.unicode_len();
    let mut count: usize = 0;
    proof {
        broadcast use vstd::string::axiom_spec_iter;
    }
    for c in it: text.chars()
        invariant
            n == text@.len(),
            it.seq() == text@,
            count as nat == alpha_count(text@.take(it.index() as int)),
    {
        let ghost i = it.index();
        proof {
            assert(text@.take(i + 1).drop_last() =~= text@.take(i as int));
            lemma_alpha_count_le(text@.take(i as int));
        }
        if is_alphabetic(c) {
            count = count + 1;
        }
    }
    assert(text@.take(text@.len() as int) =~= text@);
    count
}

/// True when `line` holds at least `minlength` alphabetic characters.
pub fn long_enough(line: &str, minlength: u8) -> (r: bool)
    ensures
        r == (alpha_count(line@) >= minlength as nat),
{
    alphabetic_count(line) >= minlength as usize
}

/// The filter: with no minimum every text passes; otherwise a text passes when
/// it holds at least the minimum number of alphabetic characters.
pub fn passes(text: &str, min_length: Option<u8>) -> (r: bool)
    ensures
        r == passes_spec(text@, min_length),
{
    match min_length {
        None => true,
        Some(m) => long_enough(text, m),
    }
}

} // verus!
