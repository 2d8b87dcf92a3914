//! Properties that hold of every input, proved over the models the
//! executable functions are specified with.
use vstd::prelude::*;
use crate::length::{alpha_count, passes_spec};
use crate::mode::InputMode;
use crate::driver::{UnitAction, action_spec, batch_output, kept_lines};
use crate::record::{
    ConfidenceEntry, confidence_records, count_qualifying, entry_record, entry_records, qualifies,
    qualifying, unknown_record,
};

verus! {

proof fn lemma_qualifying_count(entries: Seq<ConfidenceEntry>, t: Option<u64>)
    ensures
        qualifying(entries, t).len() == count_qualifying(entries, t),
        forall|i: int|
            0 <= i < qualifying(entries, t).len() ==> qualifies(
                #[trigger] qualifying(entries, t)[i],
                t,
            ),
    decreases entries.len(),
{
    if entries.len() > 0 {
        lemma_qualifying_count(entries.drop_last(), t);
    }
}

proof fn lemma_entry_records_index(s: Seq<ConfidenceEntry>, d: Seq<u8>, line: Option<Seq<u8>>)
    ensures
        entry_records(s, d, line).len() == s.len(),
        forall|i: int|
            0 <= i < s.len() ==> #[trigger] entry_records(s, d, line)[i] == entry_record(
                s[i],
                d,
                line,
            ),
    decreases s.len(),
{
    if s.len() > 0 {
        lemma_entry_records_index(s.drop_last(), d, line);
    }
}

/// Reporting the top entry alone yields exactly one record: the top entry's,
/// when the distribution is not empty and its score reaches the threshold
/// (or no threshold is set), and the `unknown` record otherwise.
pub proof fn top_only_yields_one_record(
    entries: Seq<ConfidenceEntry>,
    delimiter: Seq<u8>,
    threshold: Option<u64>,
    line: Option<Seq<u8>>,
)
    ensures
        confidence_records(entries, delimiter, threshold, false, line).len() == 1,
        confidence_records(entries, delimiter, threshold, false, line)[0] == if entries.len() > 0
            && (threshold is None || entries[0].score_key >= threshold->Some_0) {
            entry_record(entries[0], delimiter, line)
        } else {
            unknown_record(delimiter, line)
        },
{
    if entries.len() > 0 && qualifies(entries[0], threshold) {
        lemma_entry_records_index(seq![entries[0]], delimiter, line);
    }
}

/// Reporting every entry yields one record per entry whose score reaches the
/// threshold, in ranked order; when there is none, exactly one `unknown`
/// record, never a mix of the two.
pub proof fn all_yields_qualifying_records(
    entries: Seq<ConfidenceEntry>,
    delimiter: Seq<u8>,
    threshold: Option<u64>,
    line: Option<Seq<u8>>,
)
    ensures
        count_qualifying(entries, threshold) > 0 ==> {
            let rs = confidence_records(entries, delimiter, threshold, true, line);
            &&& rs.len() == count_qualifying(entries, threshold)
            &&& forall|i: int|
                0 <= i < rs.len() ==> #[trigger] rs[i] == entry_record(
                    qualifying(entries, threshold)[i],
                    delimiter,
                    line,
                )
        },
        count_qualifying(entries, threshold) == 0 ==> confidence_records(
            entries,
            delimiter,
            threshold,
            true,
            line,
        ) == seq![unknown_record(delimiter, line)],
{
    lemma_qualifying_count(entries, threshold);
    lemma_entry_records_index(qualifying(entries, threshold), delimiter, line);
}

/// The minimum-length filter: with a minimum of `m`, a text with fewer than
/// `m` alphabetic characters never reaches the detector, and one with
/// exactly `m` does, whatever the mode.
pub proof fn minimum_length_is_exact(text: Seq<char>, m: u8, mode: InputMode)
    ensures
        alpha_count(text) < m ==> action_spec(text, Some(m), mode) != UnitAction::Classify,
        alpha_count(text) == m ==> action_spec(text, Some(m), mode) == UnitAction::Classify,
        action_spec(text, None, mode) == UnitAction::Classify,
{
}

/// The parallel batch holds exactly the lines that pass the length filter: each of
/// them passes, and the batch is as long as the number of passing lines.
pub proof fn batch_holds_passing_lines(lines: Seq<Seq<char>>, min_length: Option<u8>)
    ensures
        forall|i: int|
            0 <= i < kept_lines(lines, min_length).len() ==> passes_spec(
                #[trigger] kept_lines(lines, min_length)[i],
                min_length,
            ),
        kept_lines(lines, min_length).len() == lines.filter(
            |l: Seq<char>| passes_spec(l, min_length),
        ).len(),
    decreases lines.len(),
{
    reveal(Seq::filter);
    if lines.len() > 0 {
        batch_holds_passing_lines(lines.drop_last(), min_length);
    }
}

/// Order is kept across a batch: the output for two consecutive groups of
/// lines, each with its own distributions, is the output for the first
/// group followed by that for the second.
pub proof fn batch_output_keeps_order(
    lines1: Seq<String>,
    results1: Seq<Vec<ConfidenceEntry>>,
    lines2: Seq<String>,
    results2: Seq<Vec<ConfidenceEntry>>,
    delimiter: Seq<u8>,
    threshold: Option<u64>,
    all: bool,
)
    requires
        lines1.len() == results1.len(),
        lines2.len() == results2.len(),
    ensures
        batch_output(lines1 + lines2, results1 + results2, delimiter, threshold, all) == batch_output(
            lines1,
            results1,
            delimiter,
            threshold,
            all,
        ) + batch_output(lines2, results2, delimiter, threshold, all),
    decreases lines2.len(),
{
    if lines2.len() == 0 {
        assert(lines1 + lines2 =~= lines1);
        assert(results1 + results2 =~= results1);
        assert(batch_output(lines1, results1, delimiter, threshold, all) + Seq::<u8>::empty()
            =~= batch_output(lines1, results1, delimiter, threshold, all));
    } else {
        batch_output_keeps_order(
            lines1,
            results1,
            lines2.drop_last(),
            results2.drop_last(),
            delimiter,
            threshold,
            all,
        );
        assert((lines1 + lines2).drop_last() =~= lines1 + lines2.drop_last());
        assert((results1 + results2).drop_last() =~= results1 + results2.drop_last());
        assert((lines1 + lines2).last() == lines2.last());
        assert((results1 + results2).last() == results2.last());
        let a = batch_output(lines1, results1, delimiter, threshold, all);
        let b = batch_output(lines2.drop_last(), results2.drop_last(), delimiter, threshold, all);
        let c = batch_output(lines2, results2, delimiter, threshold, all);
        assert(c == b + (c.subrange(b.len() as int, c.len() as int)));
        assert(a + b + c.subrange(b.len() as int, c.len() as int) =~= a + c);
    }
}

/// Two distributions that hold the same codes, score keys and score texts,
/// position by position.
pub open spec fn same_entries(a: Seq<ConfidenceEntry>, b: Seq<ConfidenceEntry>) -> bool {
    &&& a.len() == b.len()
    &&& forall|i: int|
        0 <= i < a.len() ==> {
            &&& (#[trigger] a[i]).code@ == b[i].code@
            &&& a[i].score_key == b[i].score_key
            &&& a[i].score_text@ == b[i].score_text@
        }
}

proof fn lemma_same_qualifying(
    a: Seq<ConfidenceEntry>,
    b: Seq<ConfidenceEntry>,
    d: Seq<u8>,
    t: Option<u64>,
    line: Option<Seq<u8>>,
)
    requires
        same_entries(a, b),
    ensures
        qualifying(a, t).len() == qualifying(b, t).len(),
        entry_records(qualifying(a, t), d, line) == entry_records(qualifying(b, t), d, line),
    decreases a.len(),
{
    if a.len() > 0 {
        assert(same_entries(a.drop_last(), b.drop_last()));
        lemma_same_qualifying(a.drop_last(), b.drop_last(), d, t, line);
        let qa = qualifying(a.drop_last(), t);
        let qb = qualifying(b.drop_last(), t);
        if qualifies(a.last(), t) {
            assert(qa.push(a.last()).drop_last() =~= qa);
            assert(qb.push(b.last()).drop_last() =~= qb);
        }
    }
}

/// Formatting depends on nothing but its inputs: the same distribution (by
/// codes, score keys and score texts) and the same settings give the same
/// bytes, however often it is done.
pub proof fn formatting_is_deterministic(
    a: Seq<ConfidenceEntry>,
    b: Seq<ConfidenceEntry>,
    delimiter: Seq<u8>,
    threshold: Option<u64>,
    all: bool,
    line: Option<Seq<u8>>,
)
    requires
        same_entries(a, b),
    ensures
        confidence_records(a, delimiter, threshold, all, line) == confidence_records(
            b,
            delimiter,
            threshold,
            all,
            line,
        ),
{
    lemma_same_qualifying(a, b, delimiter, threshold, line);
    if !all && a.len() > 0 {
        assert(entry_record(a[0], delimiter, line) == entry_record(b[0], delimiter, line));
        lemma_entry_records_index(seq![a[0]], delimiter, line);
        lemma_entry_records_index(seq![b[0]], delimiter, line);
        assert(entry_records(seq![a[0]], delimiter, line) =~= entry_records(seq![b[0]], delimiter, line));
    }
}

} // verus!
