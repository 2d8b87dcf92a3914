//! Rendering of detector results as delimited, newline-terminated records.
//!
//! A record is a sequence of bytes; the output for one text unit is the
//! concatenation of its records. Scores are carried as an ordering key,
//! compared against the threshold, together with the text that is printed.
use vstd::prelude::*;
use vstd::utf8::encode_utf8;

verus! {

/// One candidate language with its confidence score.
///
/// `score_key` orders scores: of two entries, the one with the larger key
/// has the larger score. `score_text` is the score as it is printed.
pub struct ConfidenceEntry {
    pub code: String,
    pub score_key: u64,
    pub score_text: String,
}

/// A span of the text, in byte offsets, attributed to one language.
pub struct Segment {
    pub start: usize,
    pub end: usize,
    pub code: String,
}

/// The UTF-8 bytes of a character sequence.
pub open spec fn bytes_of(s: Seq<char>) -> Seq<u8> {
    encode_utf8(s)
}

/// The bytes of the word `unknown`.
pub open spec fn unknown_word() -> Seq<u8> {
    seq![117u8, 110u8, 107u8, 110u8, 111u8, 119u8, 110u8]
}

pub open spec fn newline() -> Seq<u8> {
    seq![10u8]
}

/// Decimal digits of `n`, most significant first, without leading zeros.
pub open spec fn decimal_bytes(n: nat) -> Seq<u8>
    decreases n,
{
    if n < 10 {
        seq![(48 + n) as u8]
    } else {
        decimal_bytes(n / 10).push((48 + n % 10) as u8)
    }
}

/// The concatenation of a sequence of records.
pub open spec fn joined(rs: Seq<Seq<u8>>) -> Seq<u8>
    decreases rs.len(),
{
    if rs.len() == 0 {
        Seq::empty()
    } else {
        joined(rs.drop_last()) + rs.last()
    }
}

/// Whether an entry's score reaches the threshold; with no threshold every
/// entry qualifies.
pub open spec fn qualifies(e: ConfidenceEntry, threshold: Option<u64>) -> bool {
    match threshold {
        None => true,
        Some(t) => e.score_key >= t,
    }
}

/// The entries that qualify, in the order given.
pub open spec fn qualifying(entries: Seq<ConfidenceEntry>, threshold: Option<u64>) -> Seq<
    ConfidenceEntry,
>
    decreases entries.len(),
{
    if entries.len() == 0 {
        Seq::empty()
    } else {
        let rest = qualifying(entries.drop_last(), threshold);
        if qualifies(entries.last(), threshold) {
            rest.push(entries.last())
        } else {
            rest
        }
    }
}

/// Number of entries whose score reaches the threshold.
pub open spec fn count_qualifying(entries: Seq<ConfidenceEntry>, threshold: Option<u64>) -> nat
    decreases entries.len(),
{
    if entries.len() == 0 {
        0
    } else {
        count_qualifying(entries.drop_last(), threshold) + if qualifies(
            entries.last(),
            threshold,
        ) {
            1nat
        } else {
            0nat
        }
    }
}

/// The entries that are reported: every qualifying one when `all` is set,
/// otherwise the top-ranked entry alone, when it qualifies.
pub open spec fn selected(entries: Seq<ConfidenceEntry>, threshold: Option<u64>, all: bool) -> Seq<
    ConfidenceEntry,
> {
    if all {
        qualifying(entries, threshold)
    } else if entries.len() > 0 && qualifies(entries[0], threshold) {
        seq![entries[0]]
    } else {
        Seq::empty()
    }
}

/// What follows the score in a record: in per-line mode, the delimiter and
/// the input line; otherwise nothing.
pub open spec fn line_suffix(delimiter: Seq<u8>, line: Option<Seq<u8>>) -> Seq<u8> {
    match line {
        None => Seq::empty(),
        Some(l) => delimiter + l,
    }
}

/// `code<d>score` (with `<d>line` in per-line mode) and a newline.
pub open spec fn entry_record(e: ConfidenceEntry, delimiter: Seq<u8>, line: Option<Seq<u8>>) -> Seq<
    u8,
> {
    bytes_of(e.code@) + delimiter + bytes_of(e.score_text@) + line_suffix(delimiter, line)
        + newline()
}

/// `unknown<d>` (with `<d>line` in per-line mode) and a newline.
pub open spec fn unknown_record(delimiter: Seq<u8>, line: Option<Seq<u8>>) -> Seq<u8> {
    unknown_word() + delimiter + line_suffix(delimiter, line) + newline()
}

/// One record per entry, in order.
pub open spec fn entry_records(
    entries: Seq<ConfidenceEntry>,
    delimiter: Seq<u8>,
    line: Option<Seq<u8>>,
) -> Seq<Seq<u8>>
    decreases entries.len(),
{
    if entries.len() == 0 {
        Seq::empty()
    } else {
        entry_records(entries.drop_last(), delimiter, line).push(
            entry_record(entries.last(), delimiter, line),
        )
    }
}

/// The records for a ranked distribution: one per selected entry, or a
/// single `unknown` record when nothing is selected.
pub open spec fn confidence_records(
    entries: Seq<ConfidenceEntry>,
    delimiter: Seq<u8>,
    threshold: Option<u64>,
    all: bool,
    line: Option<Seq<u8>>,
) -> Seq<Seq<u8>> {
    let s = selected(entries, threshold, all);
    if s.len() == 0 {
        seq![unknown_record(delimiter, line)]
    } else {
        entry_records(s, delimiter, line)
    }
}

/// `start<d>end<d>code<d>span` and a newline, where `span` is the bytes of
/// the text between the two offsets.
pub open spec fn segment_record(s: Segment, text: Seq<u8>, delimiter: Seq<u8>) -> Seq<u8> {
    decimal_bytes(s.start as nat) + delimiter + decimal_bytes(s.end as nat) + delimiter + bytes_of(
        s.code@,
    ) + delimiter + text.subrange(s.start as int, s.end as int) + newline()
}

/// One record per segment, in the order given.
pub open spec fn segment_records(segments: Seq<Segment>, text: Seq<u8>, delimiter: Seq<u8>) -> Seq<
    Seq<u8>,
>
    decreases segments.len(),
{
    if segments.len() == 0 {
        Seq::empty()
    } else {
        segment_records(segments.drop_last(), text, delimiter).push(
            segment_record(segments.last(), text, delimiter),
        )
    }
}

/// Whether a segment lies within a text of `len` bytes.
pub open spec fn segment_within(s: Segment, len: nat) -> bool {
    s.start <= s.end && s.end <= len
}

/// Relies on the decimal `Display` of `usize`: the digits of `n`, most
/// significant first, without leading zeros.
#[verifier::external_body]
fn decimal(n: usize) -> (r: Vec<u8>)
    ensures
        r@ == decimal_bytes(n as nat),
{
    n.to_string().into_bytes()
}

fn push_bytes(out: &mut Vec<u8>, src: &[u8])
    ensures
        final(out)@ == old(out)@ + src@,
{
    let mut i: usize = 0;
    while i < src.len()
        invariant
            i <= src@.len(),
            out@ == old(out)@ + src@.take(i as int),
        decreases src@.len() - i,
    {
        out.push(src[i]);
        i = i + 1;
        assert(out@ =~= old(out)@ + src@.take(i as int));
    }
    assert(src@.take(i as int) =~= src@);
}

fn push_str(out: &mut Vec<u8>, s: &str)
    ensures
        final(out)@ == old(out)@ + bytes_of(s@),
{
    push_bytes(out, s.as_bytes());
}

fn push_unknown(out: &mut Vec<u8>)
    ensures
        final(out)@ == old(out)@ + unknown_word(),
{
    out.push(117u8);
    out.push(110u8);
    out.push(107u8);
    out.push(110u8);
    out.push(111u8);
    out.push(119u8);
    out.push(110u8);
    assert(final(out)@ =~= old(out)@ + unknown_word());
}

fn push_line_suffix(out: &mut Vec<u8>, delimiter: &str, line: Option<&str>)
    ensures
        final(out)@ == old(out)@ + line_suffix(bytes_of(delimiter@), opt_bytes(line)),
{
    match line {
        None => {
            assert(out@ =~= out@ + Seq::<u8>::empty());
        },
        Some(l) => {
            push_str(out, delimiter);
            push_str(out, l);
            assert(final(out)@ =~= old(out)@ + (bytes_of(delimiter@) + bytes_of(l@)));
        },
    }
}

/// The bytes of an optional line.
pub open spec fn opt_bytes(line: Option<&str>) -> Option<Seq<u8>> {
    match line {
        None => None,
        Some(l) => Some(bytes_of(l@)),
    }
}

fn push_entry_record(out: &mut Vec<u8>, e: &ConfidenceEntry, delimiter: &str, line: Option<&str>)
    ensures
        final(out)@ == old(out)@ + entry_record(*e, bytes_of(delimiter@), opt_bytes(line)),
{
    push_str(out, e.code.as_str());
    push_str(out, delimiter);
    push_str(out, e.score_text.as_str());
    push_line_suffix(out, delimiter, line);
    out.push(10u8);
    assert(final(out)@ =~= old(out)@ + entry_record(*e, bytes_of(delimiter@), opt_bytes(line)));
}

fn push_unknown_record(out: &mut Vec<u8>, delimiter: &str, line: Option<&str>)
    ensures
        final(out)@ == old(out)@ + unknown_record(bytes_of(delimiter@), opt_bytes(line)),
{
    push_unknown(out);
    push_str(out, delimiter);
    push_line_suffix(out, delimiter, line);
    out.push(10u8);
    assert(final(out)@ =~= old(out)@ + unknown_record(bytes_of(delimiter@), opt_bytes(line)));
}

fn score_qualifies(e: &ConfidenceEntry, threshold: Option<u64>) -> (r: bool)
    ensures
        r == qualifies(*e, threshold),
{
    match threshold {
        None => true,
        Some(t) => e.score_key >= t,
    }
}

proof fn lemma_joined_push(rs: Seq<Seq<u8>>, x: Seq<u8>)
    ensures
        joined(rs.push(x)) == joined(rs) + x,
{
    assert(rs.push(x).drop_last() =~= rs);
}

proof fn lemma_joined_single(x: Seq<u8>)
    ensures
        joined(seq![x]) == x,
{
    lemma_joined_push(Seq::empty(), x);
    assert(Seq::<Seq<u8>>::empty().push(x) =~= seq![x]);
    assert(Seq::<u8>::empty() + x =~= x);
}

proof fn lemma_entry_records_single(e: ConfidenceEntry, d: Seq<u8>, line: Option<Seq<u8>>)
    ensures
        entry_records(seq![e], d, line) == seq![entry_record(e, d, line)],
{
    assert(seq![e].drop_last() =~= Seq::<ConfidenceEntry>::empty());
    assert(seq![e].last() == e);
    assert(entry_records(Seq::empty(), d, line) =~= Seq::<Seq<u8>>::empty());
    assert(Seq::<Seq<u8>>::empty().push(entry_record(e, d, line)) =~= seq![
        entry_record(e, d, line),
    ]);
}

/// Renders a ranked distribution; `line` is the input line in per-line
/// mode and absent otherwise.
fn render_confidence(
    results: &Vec<ConfidenceEntry>,
    delimiter: &str,
    threshold: Option<u64>,
    all: bool,
    line: Option<&str>,
) -> (r: Vec<u8>)
    ensures
        r@ == joined(
            confidence_records(results@, bytes_of(delimiter@), threshold, all, opt_bytes(line)),
        ),
{
    let ghost d = bytes_of(delimiter@);
    let ghost l = opt_bytes(line);
    let mut out: Vec<u8> = Vec::new();
    if all {
        let mut found = false;
        let mut i: usize = 0;
        while i < results.len()
            invariant
                i <= results@.len(),
                d == bytes_of(delimiter@),
                l == opt_bytes(line),
                out@ == joined(entry_records(qualifying(results@.take(i as int), threshold), d, l)),
                found == (qualifying(results@.take(i as int), threshold).len() > 0),
            decreases results@.len() - i,
        {
            let ghost q = qualifying(results@.take(i as int), threshold);
            proof {
                assert(results@.take(i + 1).drop_last() =~= results@.take(i as int));
                assert(results@.take(i + 1).last() == results@[i as int]);
            }
            if score_qualifies(&results[i], threshold) {
                push_entry_record(&mut out, &results[i], delimiter, line);
                proof {
                    assert(q.push(results@[i as int]).drop_last() =~= q);
                    lemma_joined_push(entry_records(q, d, l), entry_record(results@[i as int], d, l));
                }
                found = true;
            } else {
                assert(qualifying(results@.take(i + 1), threshold) == q);
            }
            i = i + 1;
        }
        proof {
            assert(results@.take(i as int) =~= results@);
        }
        if !found {
            push_unknown_record(&mut out, delimiter, line);
            proof {
                assert(Seq::<u8>::empty() =~= joined(Seq::empty()));
                assert(out@ =~= unknown_record(d, l));
                lemma_joined_single(unknown_record(d, l));
            }
        }
    } else {
        if results.len() > 0 && score_qualifies(&results[0], threshold) {
            push_entry_record(&mut out, &results[0], delimiter, line);
            proof {
                assert(out@ =~= entry_record(results@[0], d, l));
                lemma_entry_records_single(results@[0], d, l);
                lemma_joined_single(entry_record(results@[0], d, l));
            }
        } else {
            push_unknown_record(&mut out, delimiter, line);
            proof {
                assert(out@ =~= unknown_record(d, l));
                lemma_joined_single(unknown_record(d, l));
            }
        }
    }
    out
}

/// Records for a whole text: `code<d>score` per reported entry, or
/// `unknown<d>` when no entry is reported.
pub fn format_confidence_values(
    results: &Vec<ConfidenceEntry>,
    delimiter: &str,
    confidence_threshold: Option<u64>,
    all: bool,
) -> (r: Vec<u8>)
    ensures
        r@ == joined(
            confidence_records(results@, bytes_of(delimiter@), confidence_threshold, all, None),
        ),
{
    render_confidence(results, delimiter, confidence_threshold, all, None)
}

/// Records for one line of input: `code<d>score<d>line` per reported entry,
/// or `unknown<d><d>line` when no entry is reported.
pub fn format_line_with_confidence_values(
    line: &str,
    results: &Vec<ConfidenceEntry>,
    delimiter: &str,
    confidence_threshold: Option<u64>,
    all: bool,
) -> (r: Vec<u8>)
    ensures
        r@ == joined(
            confidence_records(
                results@,
                bytes_of(delimiter@),
                confidence_threshold,
                all,
                Some(bytes_of(line@)),
            ),
        ),
{
    render_confidence(results, delimiter, confidence_threshold, all, Some(line))
}

/// The record for a text that the length filter kept from the detector:
/// `unknown<d>` for a whole text, `unknown<d><d>line` for a line.
pub fn format_rejected(delimiter: &str, line: Option<&str>) -> (r: Vec<u8>)
    ensures
        r@ == unknown_record(bytes_of(delimiter@), opt_bytes(line)),
{
    let mut out: Vec<u8> = Vec::new();
    push_unknown_record(&mut out, delimiter, line);
    assert(out@ =~= unknown_record(bytes_of(delimiter@), opt_bytes(line)));
    out
}

/// Records for a multi-language text: one `start<d>end<d>code<d>span` per
/// segment, in the order given.
pub fn format_with_offset(results: &Vec<Segment>, text: &str, delimiter: &str) -> (r: Vec<u8>)
    requires
        forall|i: int|
            0 <= i < results@.len() ==> segment_within(
                #[trigger] results@[i],
                bytes_of(text@).len(),
            ),
    ensures
        r@ == joined(segment_records(results@, bytes_of(text@), bytes_of(delimiter@))),
{
    let ghost d = bytes_of(delimiter@);
    let ghost t = bytes_of(text@);
    let bytes = text.as_bytes();
    let mut out: Vec<u8> = Vec::new();
    let mut i: usize = 0;
    while i < results.len()
        invariant
            i <= results@.len(),
            bytes@ == t,
            t == bytes_of(text@),
            d == bytes_of(delimiter@),
            forall|k: int| 0 <= k < results@.len() ==> segment_within(#[trigger] results@[k], t.len()),
            out@ == joined(segment_records(results@.take(i as int), t, d)),
        decreases results@.len() - i,
    {
        let s = &results[i];
        let ghost before = out@;
        let start_digits = decimal(s.start);
        push_bytes(&mut out, start_digits.as_slice());
        push_str(&mut out, delimiter);
        let end_digits = decimal(s.end);
        push_bytes(&mut out, end_digits.as_slice());
        push_str(&mut out, delimiter);
        push_str(&mut out, s.code.as_str());
        push_str(&mut out, delimiter);
        push_bytes(&mut out, vstd::slice::slice_subrange(bytes, s.start, s.end));
        out.push(10u8);
        proof {
            assert(out@ =~= before + segment_record(results@[i as int], t, d));
            assert(results@.take(i + 1).drop_last() =~= results@.take(i as int));
            lemma_joined_push(
                segment_records(results@.take(i as int), t, d),
                segment_record(results@[i as int], t, d),
            );
        }
        i = i + 1;
    }
    assert(results@.take(i as int) =~= results@);
    out
}

/// The bytes of ` - `, between a language's code and its name.
pub open spec fn dash() -> Seq<u8> {
    seq![32u8, 45u8, 32u8]
}

/// `code - name` and a newline.
pub open spec fn language_record(code: Seq<char>, name: Seq<char>) -> Seq<u8> {
    bytes_of(code) + dash() + bytes_of(name) + newline()
}

/// One `code - name` record per language, in the order given.
pub open spec fn language_records(languages: Seq<(String, String)>) -> Seq<Seq<u8>>
    decreases languages.len(),
{
    if languages.len() == 0 {
        Seq::empty()
    } else {
        language_records(languages.drop_last()).push(
            language_record(languages.last().0@, languages.last().1@),
        )
    }
}

/// The listing of supported languages: one `code - name` line for each
/// (code, name) pair, in the order given.
pub fn format_language_list(languages: &Vec<(String, String)>) -> (r: Vec<u8>)
    ensures
        r@ == joined(language_records(languages@)),
{
    let mut out: Vec<u8> = Vec::new();
    let mut i: usize = 0;
    while i < languages.len()
        invariant
            i <= languages@.len(),
            out@ == joined(language_records(languages@.take(i as int))),
        decreases languages@.len() - i,
    {
        let ghost before = out@;
        let pair = &languages[i];
        push_str(&mut out, pair.0.as_str());
        out.push(32u8);
        out.push(45u8);
        out.push(32u8);
        push_str(&mut out, pair.1.as_str());
        out.push(10u8);
        proof {
            assert(out@ =~= before + language_record(pair.0@, pair.1@));
            assert(languages@.take(i + 1).drop_last() =~= languages@.take(i as int));
            lemma_joined_push(
                language_records(languages@.take(i as int)),
                language_record(pair.0@, pair.1@),
            );
        }
        i = i + 1;
    }
    assert(languages@.take(i as int) =~= languages@);
    out
}

} // verus!
