//! Per-text decisions of a run: whether a text goes to the detector, what
//! becomes of one that does not, and how a batch of lines is reported.
use vstd::prelude::*;
use crate::length::{passes, passes_spec};
use crate::input::texts;
use crate::mode::InputMode;
use crate::record::{
    ConfidenceEntry, bytes_of, confidence_records, format_line_with_confidence_values, joined,
};

verus! {

/// What happens to one text.
#[derive(Debug, PartialEq, Eq, Clone, Copy)]
pub enum UnitAction {
    /// It goes to the detector.
    Classify,
    /// It is reported as `unknown` without reaching the detector.
    ReportUnknown,
    /// It is left out of the output altogether.
    Omit,
}

/// A text that passes the length filter is classified. One that fails it is left out
/// in the parallel per-line mode, and reported as `unknown` in every other.
pub open spec fn action_spec(text: Seq<char>, min_length: Option<u8>, mode: InputMode) -> UnitAction {
    if passes_spec(text, min_length) {
        UnitAction::Classify
    } else if mode is PerLineParallel {
        UnitAction::Omit
    } else {
        UnitAction::ReportUnknown
    }
}

/// Decides what happens to one text of a run in the given mode.
pub fn unit_action(text: &str, min_length: Option<u8>, mode: &InputMode) -> (r: UnitAction)
    ensures
        r == action_spec(text@, min_length, *mode),
{
    if passes(text, min_length) {
        UnitAction::Classify
    } else {
        match mode {
            InputMode::PerLineParallel => UnitAction::Omit,
            _ => UnitAction::ReportUnknown,
        }
    }
}

/// Whether the run must warn, on the side channel, that short lines are
/// left out: only in the parallel per-line mode with a minimum length set.
pub fn warns_of_omitted_lines(mode: &InputMode, min_length: Option<u8>) -> (r: bool)
    ensures
        r == (*mode is PerLineParallel && min_length is Some),
{
    match mode {
        InputMode::PerLineParallel => min_length.is_some(),
        _ => false,
    }
}

/// The lines that pass the length filter, in the order given.
pub open spec fn kept_lines(lines: Seq<Seq<char>>, min_length: Option<u8>) -> Seq<Seq<char>>
    decreases lines.len(),
{
    if lines.len() == 0 {
        Seq::empty()
    } else {
        let rest = kept_lines(lines.drop_last(), min_length);
        if passes_spec(lines.last(), min_length) {
            rest.push(lines.last())
        } else {
            rest
        }
    }
}

/// The batch handed to the detector in the parallel per-line mode: the
/// lines that pass the length filter, in order; the others never reach it.
pub fn batch_lines(lines: &Vec<String>, min_length: Option<u8>) -> (r: Vec<String>)
    ensures
        texts(r@) == kept_lines(texts(lines@), min_length),
{
    let ghost all = texts(lines@);
    let mut out: Vec<String> = Vec::new();
    let mut i: usize = 0;
    while i < lines.len()
        invariant
            all == texts(lines@),
            i <= lines@.len(),
            texts(out@) == kept_lines(all.take(i as int), min_length),
        decreases lines@.len() - i,
    {
        proof {
            assert(all.take(i + 1).drop_last() =~= all.take(i as int));
            assert(all.take(i + 1).last() == lines@[i as int]@);
        }
        if passes(lines[i].as_str(), min_length) {
            let ghost before = out@;
            out.push(lines[i].clone());
            assert(texts(out@) =~= texts(before).push(lines@[i as int]@));
        }
        i = i + 1;
    }
    assert(all.take(i as int) =~= all);
    out
}

/// The output of a batch: for each line, in order, the records of the
/// distribution at the same position.
pub open spec fn batch_output(
    lines: Seq<String>,
    results: Seq<Vec<ConfidenceEntry>>,
    delimiter: Seq<u8>,
    threshold: Option<u64>,
    all: bool,
) -> Seq<u8>
    decreases lines.len(),
{
    if lines.len() == 0 || results.len() == 0 {
        Seq::empty()
    } else {
        batch_output(lines.drop_last(), results.drop_last(), delimiter, threshold, all) + joined(
            confidence_records(
                results.last()@,
                delimiter,
                threshold,
                all,
                Some(bytes_of(lines.last()@)),
            ),
        )
    }
}

/// Reports a batch of lines with their distributions; the distribution at
/// position `i` belongs to line `i`.
pub fn format_batch(
    lines: &Vec<String>,
    results: &Vec<Vec<ConfidenceEntry>>,
    delimiter: &str,
    confidence_threshold: Option<u64>,
    all: bool,
) -> (r: Vec<u8>)
    requires
        lines@.len() == results@.len(),
    ensures
        r@ == batch_output(lines@, results@, bytes_of(delimiter@), confidence_threshold, all),
{
    let ghost d = bytes_of(delimiter@);
    let mut out: Vec<u8> = Vec::new();
    let mut i: usize = 0;
    while i < lines.len()
        invariant
            lines@.len() == results@.len(),
            i <= lines@.len(),
            d == bytes_of(delimiter@),
            out@ == batch_output(
                lines@.take(i as int),
                results@.take(i as int),
                d,
                confidence_threshold,
                all,
            ),
        decreases lines@.len() - i,
    {
        let mut part = format_line_with_confidence_values(
            lines[i].as_str(),
            &results[i],
            delimiter,
            confidence_threshold,
            all,
        );
        proof {
            assert(lines@.take(i + 1).drop_last() =~= lines@.take(i as int));
            assert(results@.take(i + 1).drop_last() =~= results@.take(i as int));
            assert(lines@.take(i + 1).last() == lines@[i as int]);
            assert(results@.take(i + 1).last() == results@[i as int]);
        }
        out.append(&mut part);
        i = i + 1;
    }
    assert(lines@.take(i as int) =~= lines@);
    assert(results@.take(i as int) =~= results@);
    out
}

} // verus!
